//! Sending files and clipboard content: the limit checks made before anything is hashed, and
//! the preview shown in the send dialog.

use vstd::prelude::*;
use vstd::string::StringSliceAdditionalSpecFns;
use crate::protocol::envelope::{ServerLimits, spec_exceeds};
use crate::size_text::{human_bytes, spec_human_bytes, push_scaled, scaled_string, KIB, MIB};
use crate::text::{
    chars_of, push_chars, push_str, push_dec, string_from_chars, sub_chars, dec_string,
};

verus! {

/// The clipboard text limit when the server sent none (old servers, or not connected yet).
/// Equal to the server's default text limit by coincidence only; the two are kept apart.
pub const FALLBACK_TEXT_BYTES: usize = 4194304;

/// The clipboard image limit when the server sent none.
pub const FALLBACK_IMAGE_BYTES: usize = 33554432;

/// What the application found at one path chosen for sending, for the limit check.
#[derive(Debug, Clone)]
pub enum PathMeta {
    /// The path could not be read; it is skipped, as the offer skips it.
    Unreadable,
    /// A directory; not expanded and not counted.
    Directory,
    /// A file: its name when the path has one, and its size.
    File { name: Option<String>, size: u64 },
}

pub enum PathMetaView {
    Unreadable,
    Directory,
    File { name: Option<Seq<char>>, size: u64 },
}

impl View for PathMeta {
    type V = PathMetaView;

    open spec fn view(&self) -> PathMetaView {
        match self {
            PathMeta::Unreadable => PathMetaView::Unreadable,
            PathMeta::Directory => PathMetaView::Directory,
            PathMeta::File { name, size } => PathMetaView::File {
                name: match name {
                    Some(n) => Some(n@),
                    None => None,
                },
                size: *size,
            },
        }
    }
}

pub open spec fn metas_view(ms: Seq<PathMeta>) -> Seq<PathMetaView> {
    ms.map_values(|m: PathMeta| m@)
}

/// The size of a file entry as the check counts it (`u64` read as `i64`), zero otherwise.
pub open spec fn meta_size(m: PathMetaView) -> int {
    match m {
        PathMetaView::File { size, .. } => (size as i64) as int,
        _ => 0,
    }
}

/// The positions of the file entries.
pub open spec fn meta_files(ms: Seq<PathMetaView>) -> Seq<int>
    decreases ms.len(),
{
    if ms.len() == 0 {
        Seq::empty()
    } else {
        let r = meta_files(ms.drop_last());
        if ms.last() is File {
            r.push(ms.len() - 1)
        } else {
            r
        }
    }
}

/// The total size of the file entries.
pub open spec fn meta_total(ms: Seq<PathMetaView>) -> int
    decreases ms.len(),
{
    if ms.len() == 0 {
        0
    } else {
        meta_total(ms.drop_last()) + meta_size(ms.last())
    }
}

/// The entry is a file over the single-file limit.
pub open spec fn too_big(m: PathMetaView, limits: Option<ServerLimits>) -> bool {
    m is File && limits is Some && spec_exceeds(limits->0.max_single_file_bytes as int, meta_size(m))
}

/// `k` is the first file over the single-file limit.
pub open spec fn is_first_too_big(ms: Seq<PathMetaView>, limits: Option<ServerLimits>, k: int) -> bool {
    0 <= k < ms.len() && too_big(ms[k], limits) && forall|j: int| 0 <= j < k ==> !too_big(ms[j], limits)
}

pub open spec fn single_file_message(m: PathMetaView, limit: i64) -> Seq<char> {
    let name = match m {
        PathMetaView::File { name: Some(n), .. } => n,
        _ => "该文件"@,
    };
    "文件太大，无法传输：「"@ + name + "」为 "@ + spec_human_bytes(meta_size(m)) + "，单个文件最大 "@
        + spec_human_bytes(limit as int)
}

pub open spec fn empty_selection_message() -> Seq<char> {
    "没有可发送的文件（目录不会被展开，请直接选择文件）"@
}

pub open spec fn item_count_message(count: nat, limit: i32) -> Seq<char> {
    "文件太多，无法传输：本次选择了 "@ + dec_string(count) + " 个，一次最多传输 "@ + dec_string(
        limit as nat,
    ) + " 个"@
}

pub open spec fn total_size_message(total: int, limit: i64) -> Seq<char> {
    "内容太大，无法传输：本次共 "@ + spec_human_bytes(total) + "，单次传输总量最大 "@ + spec_human_bytes(
        limit as int,
    )
}

/// The result of the check made before an offer is prepared: the positions of the files to
/// send (directories and unreadable paths are skipped and not counted), or the reason they
/// cannot be sent. Without limits from the server nothing is refused for size or count.
pub open spec fn spec_precheck(ms: Seq<PathMetaView>, limits: Option<ServerLimits>) -> Result<
    Seq<int>,
    Seq<char>,
> {
    if exists|k: int| is_first_too_big(ms, limits, k) {
        let k = choose|k: int| is_first_too_big(ms, limits, k);
        Err(single_file_message(ms[k], limits->0.max_single_file_bytes))
    } else if meta_files(ms).len() == 0 {
        Err(empty_selection_message())
    } else if limits is Some && limits->0.max_items_per_offer > 0 && meta_files(ms).len()
        > limits->0.max_items_per_offer {
        Err(item_count_message(meta_files(ms).len(), limits->0.max_items_per_offer))
    } else if limits is Some && spec_exceeds(limits->0.max_total_transfer_bytes as int, meta_total(ms)) {
        Err(total_size_message(meta_total(ms), limits->0.max_total_transfer_bytes))
    } else {
        Ok(meta_files(ms))
    }
}

proof fn lemma_first_too_big_unique(
    ms: Seq<PathMetaView>,
    limits: Option<ServerLimits>,
    a: int,
    b: int,
)
    requires
        is_first_too_big(ms, limits, a),
        is_first_too_big(ms, limits, b),
    ensures
        a == b,
{
    if a < b {
        assert(!too_big(ms[a], limits));
    }
    if b < a {
        assert(!too_big(ms[b], limits));
    }
}

/// Checks a selection of paths against the server's limits before anything is hashed: a
/// file over the single-file limit (the first one, by name), an empty selection, too many
/// files, or too large a total are refused with a message that names the numbers.
pub fn precheck_file_paths(metas: &Vec<PathMeta>, limits: Option<&ServerLimits>) -> (r: Result<
    Vec<usize>,
    String,
>)
    requires
        forall|i: int|
            0 <= i <= metas@.len() ==> i64::MIN <= #[trigger] meta_total(metas_view(metas@).take(i))
                <= i64::MAX,
    ensures
        match spec_precheck(metas_view(metas@), opt_limits(limits)) {
            Ok(pos) => r matches Ok(v) && v@.len() == pos.len() && forall|k: int|
                0 <= k < pos.len() ==> v@[k] == pos[k],
            Err(m) => r matches Err(e) && e@ == m,
        },
{
    let ghost ms = metas_view(metas@);
    let ghost lim = opt_limits(limits);
    let mut usable: Vec<usize> = Vec::new();
    let mut total: i64 = 0;
    let n = metas.len();
    let mut i: usize = 0;
    assert(ms.take(0) =~= Seq::<PathMetaView>::empty());
    while i < n
        invariant
            i <= n,
            n == metas@.len(),
            ms == metas_view(metas@),
            lim == opt_limits(limits),
            forall|t: int| 0 <= t <= ms.len() ==> i64::MIN <= #[trigger] meta_total(ms.take(t)) <= i64::MAX,
            forall|j: int| 0 <= j < i ==> !too_big(#[trigger] ms[j], lim),
            total == meta_total(ms.take(i as int)),
            usable@.len() == meta_files(ms.take(i as int)).len(),
            forall|k: int| 0 <= k < usable@.len() ==> usable@[k] == meta_files(ms.take(i as int))[k],
        decreases n - i,
    {
        let ghost before = ms.take(i as int);
        let ghost after = ms.take(i + 1);
        assert(after.drop_last() =~= before);
        assert(after.last() == ms[i as int]);
        assert(ms[i as int] == metas@[i as int]@);
        assert(i64::MIN <= meta_total(ms.take(i + 1)) <= i64::MAX);
        match &metas[i] {
            PathMeta::File { name, size } => {
                let sz: i64 = *size as i64;
                if let Some(l) = limits {
                    if ServerLimits::exceeds(l.max_single_file_bytes, sz) {
                        assert(is_first_too_big(ms, lim, i as int));
                        let ghost c = choose|k: int| is_first_too_big(ms, lim, k);
                        proof {
                            lemma_first_too_big_unique(ms, lim, i as int, c);
                        }
                        let mut msg = chars_of("文件太大，无法传输：「");
                        match name {
                            Some(nm) => push_str(&mut msg, nm.as_str()),
                            None => push_str(&mut msg, "该文件"),
                        }
                        push_str(&mut msg, "」为 ");
                        push_str(&mut msg, human_bytes(sz).as_str());
                        push_str(&mut msg, "，单个文件最大 ");
                        push_str(&mut msg, human_bytes(l.max_single_file_bytes).as_str());
                        return Err(string_from_chars(msg));
                    }
                }
                total = total + sz;
                usable.push(i);
                assert(meta_files(after) == meta_files(before).push(i as int));
            },
            _ => {
                assert(meta_files(after) == meta_files(before));
            },
        }
        i = i + 1;
    }
    assert(ms.take(n as int) =~= ms);
    assert(!exists|k: int| is_first_too_big(ms, lim, k));
    if usable.len() == 0 {
        return Err("没有可发送的文件（目录不会被展开，请直接选择文件）".to_owned());
    }
    if let Some(l) = limits {
        if l.max_items_per_offer > 0 && usable.len() > l.max_items_per_offer as usize {
            let mut msg = chars_of("文件太多，无法传输：本次选择了 ");
            push_dec(&mut msg, usable.len() as u64);
            push_str(&mut msg, " 个，一次最多传输 ");
            push_dec(&mut msg, l.max_items_per_offer as u64);
            push_str(&mut msg, " 个");
            return Err(string_from_chars(msg));
        }
        if ServerLimits::exceeds(l.max_total_transfer_bytes, total) {
            let mut msg = chars_of("内容太大，无法传输：本次共 ");
            push_str(&mut msg, human_bytes(total).as_str());
            push_str(&mut msg, "，单次传输总量最大 ");
            push_str(&mut msg, human_bytes(l.max_total_transfer_bytes).as_str());
            return Err(string_from_chars(msg));
        }
    }
    Ok(usable)
}

pub open spec fn opt_limits(l: Option<&ServerLimits>) -> Option<ServerLimits> {
    match l {
        Some(x) => Some(*x),
        None => None,
    }
}

/// The clipboard limit for text or an image: the server's, or the fallback when the server
/// sent none.
pub open spec fn clipboard_cap(is_image: bool, limits: Option<ServerLimits>) -> i64 {
    match limits {
        Some(l) => if is_image {
            l.max_clipboard_image_bytes
        } else {
            l.max_clipboard_text_bytes
        },
        None => if is_image {
            FALLBACK_IMAGE_BYTES as i64
        } else {
            FALLBACK_TEXT_BYTES as i64
        },
    }
}

/// With the server's limits at hand, clipboard text is judged against the text limit and a
/// clipboard image against the image limit, each on its own: content is let through exactly
/// when that limit is unset (zero or less) or the content is no larger than it, whatever the
/// other limit says. Without them, text may be up to 4 MiB and an image up to 32 MiB.
pub proof fn lemma_clipboard_judged_by_its_own_limit(is_image: bool, len: i64, l: ServerLimits)
    ensures
        !is_image ==> (!spec_exceeds(clipboard_cap(false, Some(l)) as int, len as int) <==> (
        l.max_clipboard_text_bytes <= 0 || len <= l.max_clipboard_text_bytes)),
        is_image ==> (!spec_exceeds(clipboard_cap(true, Some(l)) as int, len as int) <==> (
        l.max_clipboard_image_bytes <= 0 || len <= l.max_clipboard_image_bytes)),
        !spec_exceeds(clipboard_cap(false, None) as int, len as int) <==> len <= 4194304,
        !spec_exceeds(clipboard_cap(true, None) as int, len as int) <==> len <= 33554432,
{
}

/// Checks clipboard content of `len` bytes against its limit before it is hashed.
pub fn check_clipboard_size(is_image: bool, len: i64, limits: Option<&ServerLimits>) -> (r: Result<
    (),
    String,
>)
    ensures
        r is Ok <==> !spec_exceeds(clipboard_cap(is_image, opt_limits(limits)) as int, len as int),
        !is_image ==> (limits matches Some(l) ==> (r is Ok <==> (l.max_clipboard_text_bytes <= 0
            || len <= l.max_clipboard_text_bytes))),
        is_image ==> (limits matches Some(l) ==> (r is Ok <==> (l.max_clipboard_image_bytes <= 0
            || len <= l.max_clipboard_image_bytes))),
        limits is None ==> (r is Ok <==> len <= (if is_image {
            33554432int
        } else {
            4194304int
        })),
        r matches Err(e) ==> e@ == "剪贴板内容太大，无法传输："@ + (if is_image {
            "图片"@
        } else {
            "文本"@
        }) + "为 "@ + spec_human_bytes(len as int) + "，最大 "@ + spec_human_bytes(
            clipboard_cap(is_image, opt_limits(limits)) as int,
        ),
{
    let cap: i64 = match limits {
        Some(l) => if is_image {
            l.max_clipboard_image_bytes
        } else {
            l.max_clipboard_text_bytes
        },
        None => if is_image {
            FALLBACK_IMAGE_BYTES as i64
        } else {
            FALLBACK_TEXT_BYTES as i64
        },
    };
    if ServerLimits::exceeds(cap, len) {
        let mut msg = chars_of("剪贴板内容太大，无法传输：");
        push_str(
            &mut msg,
            if is_image {
                "图片"
            } else {
                "文本"
            },
        );
        push_str(&mut msg, "为 ");
        push_str(&mut msg, human_bytes(len).as_str());
        push_str(&mut msg, "，最大 ");
        push_str(&mut msg, human_bytes(cap).as_str());
        return Err(string_from_chars(msg));
    }
    Ok(())
}


// ----- the send dialog's preview -----

/// What is on the clipboard. For files, the name of each path (empty when a path has none).
#[derive(Debug, Clone)]
pub enum ClipboardContent {
    Text(String),
    /// PNG bytes.
    Image(Vec<u8>),
    Files(Vec<String>),
    Empty,
}

/// The summary of the clipboard shown before sending; nothing leaves the machine.
#[derive(Debug, Clone)]
pub struct ClipboardPreview {
    /// "TEXT", "IMAGE", "FILES" or "EMPTY".
    pub kind: String,
    pub summary: String,
    pub count: usize,
    pub size_bytes: u64,
}

/// The width and height of the image `image::load_from_memory` decodes from `bytes`, or
/// `None` when it cannot decode them.
pub uninterp spec fn spec_image_dimensions(bytes: Seq<u8>) -> Option<(u32, u32)>;

/// Calls `image::load_from_memory` and reads the decoded image's width and height.
#[verifier::external_body]
fn image_dimensions(bytes: &[u8]) -> (r: Option<(u32, u32)>)
    ensures
        r == spec_image_dimensions(bytes@),
{
    match image::load_from_memory(bytes) {
        Ok(img) => Some((img.width(), img.height())),
        Err(_) => None,
    }
}

/// The first thirty characters of a text, line breaks shown as spaces.
pub open spec fn text_head(t: Seq<char>) -> Seq<char> {
    t.take(if t.len() < 30 {
        t.len() as int
    } else {
        30
    }).map_values(|c: char| if c == '\n' {
        ' '
    } else {
        c
    })
}

/// An image's size: whole kilobytes, or megabytes with one decimal from one megabyte on.
pub open spec fn image_size_text(n: nat) -> Seq<char> {
    if n >= MIB {
        scaled_string(n, MIB as nat, 1) + " MB"@
    } else {
        scaled_string(n, KIB as nat, 0) + " KB"@
    }
}

pub open spec fn image_summary(bytes: Seq<u8>) -> Seq<char> {
    match spec_image_dimensions(bytes) {
        Some((w, h)) => "图片 "@ + dec_string(w as nat) + "×"@ + dec_string(h as nat) + " ("@
            + image_size_text(bytes.len()) + ")"@,
        None => "图片 ("@ + image_size_text(bytes.len()) + ")"@,
    }
}

pub open spec fn files_summary(names: Seq<Seq<char>>) -> Seq<char> {
    let first = if names.len() > 0 {
        names[0]
    } else {
        Seq::empty()
    };
    if names.len() == 1 {
        first
    } else {
        first + " 等 "@ + dec_string(names.len()) + " 个文件"@
    }
}

/// The preview of each kind of clipboard content.
pub open spec fn spec_preview(c: ClipboardContent) -> (Seq<char>, Seq<char>, nat, nat) {
    match c {
        ClipboardContent::Text(t) => ("TEXT"@, "“"@ + text_head(t@) + "”"@, 1, vstd::utf8::encode_utf8(t@).len()),
        ClipboardContent::Image(png) => ("IMAGE"@, image_summary(png@), 1, png@.len()),
        ClipboardContent::Files(names) => (
            "FILES"@,
            files_summary(names@.map_values(|n: String| n@)),
            names@.len(),
            0,
        ),
        ClipboardContent::Empty => ("EMPTY"@, "剪贴板为空或不支持的内容类型"@, 0, 0),
    }
}

/// Summarises the clipboard for the send dialog.
pub fn build_preview(content: ClipboardContent) -> (p: ClipboardPreview)
    ensures
        p.kind@ == spec_preview(content).0,
        p.summary@ == spec_preview(content).1,
        p.count == spec_preview(content).2,
        p.size_bytes == spec_preview(content).3,
{
    match content {
        ClipboardContent::Text(t) => {
            let cs = chars_of(t.as_str());
            let k = if cs.len() < 30 {
                cs.len()
            } else {
                30
            };
            let mut summary = chars_of("“");
            let mut i: usize = 0;
            let ghost start = summary@;
            while i < k
                invariant
                    i <= k,
                    k <= cs@.len(),
                    summary@ == start + cs@.take(i as int).map_values(|c: char| if c == '\n' {
                        ' '
                    } else {
                        c
                    }),
                decreases k - i,
            {
                let c = cs[i];
                summary.push(
                    if c == '\n' {
                        ' '
                    } else {
                        c
                    },
                );
                i = i + 1;
                assert(cs@.take(i as int).map_values(|c: char| if c == '\n' {
                    ' '
                } else {
                    c
                }) =~= cs@.take(i - 1).map_values(|c: char| if c == '\n' {
                    ' '
                } else {
                    c
                }).push(if cs@[i - 1] == '\n' {
                    ' '
                } else {
                    cs@[i - 1]
                }));
            }
            push_str(&mut summary, "”");
            assert(summary@ =~= "“"@ + text_head(t@) + "”"@);
            let size = t.as_str().as_bytes().len() as u64;
            assert(size == vstd::utf8::encode_utf8(t@).len());
            let p = ClipboardPreview {
                kind: "TEXT".to_owned(),
                summary: string_from_chars(summary),
                count: 1,
                size_bytes: size,
            };
            p
        },
        ClipboardContent::Image(png) => {
            let n = png.len() as u64;
            let mut size_text: Vec<char> = Vec::new();
            if n >= MIB {
                push_scaled(&mut size_text, n, MIB, 1);
                push_str(&mut size_text, " MB");
            } else {
                push_scaled(&mut size_text, n, KIB, 0);
                push_str(&mut size_text, " KB");
            }
            let mut summary: Vec<char> = Vec::new();
            match image_dimensions(png.as_slice()) {
                Some((w, h)) => {
                    push_str(&mut summary, "图片 ");
                    push_dec(&mut summary, w as u64);
                    push_str(&mut summary, "×");
                    push_dec(&mut summary, h as u64);
                    push_str(&mut summary, " (");
                },
                None => {
                    push_str(&mut summary, "图片 (");
                },
            }
            push_chars(&mut summary, &size_text);
            push_str(&mut summary, ")");
            ClipboardPreview {
                kind: "IMAGE".to_owned(),
                summary: string_from_chars(summary),
                count: 1,
                size_bytes: n,
            }
        },
        ClipboardContent::Files(names) => {
            let count = names.len();
            let first: Vec<char> = if count > 0 {
                chars_of(names[0].as_str())
            } else {
                Vec::new()
            };
            let summary = if count == 1 {
                first
            } else {
                let mut s = first;
                push_str(&mut s, " 等 ");
                push_dec(&mut s, count as u64);
                push_str(&mut s, " 个文件");
                s
            };
            ClipboardPreview {
                kind: "FILES".to_owned(),
                summary: string_from_chars(summary),
                count,
                size_bytes: 0,
            }
        },
        ClipboardContent::Empty => ClipboardPreview {
            kind: "EMPTY".to_owned(),
            summary: "剪贴板为空或不支持的内容类型".to_owned(),
            count: 0,
            size_bytes: 0,
        },
    }
}

} // verus!
