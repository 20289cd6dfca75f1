//! Clearing dead LaunchServices records of this bundle id.
//!
//! A registration whose path no longer exists makes the menu-bar host refuse every status
//! item of the bundle id. The dump of `lsregister` is read here; running the tool, checking
//! which paths exist and unregistering them are left to the application.

use vstd::prelude::*;
use crate::text::{
    chars_of, trim_whitespace, trim_ws, split_chars, split_on, strip_prefix, has_prefix,
    matches_at, occurs_at, sub_chars, string_from_chars, push_str, str_eq,
};

verus! {

/// The bundle id LaunchServices files this application under.
pub const BUNDLE_IDENTIFIER: &'static str = "com.unidrop.client";

/// The outcome of one check, as it is logged.
#[derive(Debug, Clone)]
pub enum Report {
    /// `lsregister` is missing or not executable.
    ToolUnavailable,
    /// The dump failed, hung, or was not UTF-8; kept apart from a clean result.
    DumpFailed,
    /// The check ran.
    Checked {
        /// Dead records found (distinct paths).
        stale: usize,
        /// Records unregistered.
        purged: usize,
        /// Dead paths that could not be unregistered.
        uncleanable: Vec<String>,
    },
}

// ----- reading the dump -----

/// A record separator: a line of at least twenty `-` and nothing else.
pub open spec fn is_separator(line: Seq<char>) -> bool {
    line.len() >= 20 && forall|i: int| 0 <= i < line.len() ==> line[i] == '-'
}

/// The last position where `p` occurs in `s`, when it does.
pub open spec fn is_last_occurrence(s: Seq<char>, p: Seq<char>, i: int) -> bool {
    occurs_at(s, p, i) && forall|j: int| i < j ==> !occurs_at(s, p, j)
}

/// A path value without the registration serial `" (0x…)"` that follows it; only a value
/// ending in `)` with a `" (0x"` is cut, at the last `" (0x"`.
pub open spec fn strip_serial(v: Seq<char>) -> Seq<char> {
    if v.len() > 0 && v.last() == ')' && exists|i: int| is_last_occurrence(v, " (0x"@, i) {
        v.take(choose|i: int| is_last_occurrence(v, " (0x"@, i))
    } else {
        v
    }
}

/// The reading state: the record's identifier and path so far, and the paths found.
pub struct DumpScan {
    pub identifier: Option<Seq<char>>,
    pub path: Option<Seq<char>>,
    pub found: Seq<Seq<char>>,
}

/// Ends a record: its path counts when its identifier is `bundle_id` and it has a
/// non-empty path.
pub open spec fn flush_record(st: DumpScan, bundle_id: Seq<char>) -> Seq<Seq<char>> {
    if st.identifier == Some(bundle_id) && st.path is Some && st.path->0.len() > 0 {
        st.found.push(st.path->0)
    } else {
        st.found
    }
}

/// One line of the dump.
pub open spec fn scan_line(st: DumpScan, raw: Seq<char>, bundle_id: Seq<char>) -> DumpScan {
    let line = trim_ws(raw);
    if is_separator(line) {
        DumpScan { identifier: None, path: None, found: flush_record(st, bundle_id) }
    } else if has_prefix(line, "identifier:"@) {
        DumpScan { identifier: Some(trim_ws(line.skip("identifier:"@.len() as int))), ..st }
    } else if has_prefix(line, "path:"@) {
        DumpScan { path: Some(strip_serial(trim_ws(line.skip("path:"@.len() as int)))), ..st }
    } else {
        st
    }
}

pub open spec fn scan_lines(lines: Seq<Seq<char>>, bundle_id: Seq<char>) -> DumpScan
    decreases lines.len(),
{
    if lines.len() == 0 {
        DumpScan { identifier: None, path: None, found: Seq::empty() }
    } else {
        scan_line(scan_lines(lines.drop_last(), bundle_id), lines.last(), bundle_id)
    }
}

/// The paths of the records of `bundle_id` in the dump, in order, repeats included.
/// Records are separated by lines of twenty or more `-`; within a record the `identifier:`
/// and `path:` lines may come in either order, later ones overriding earlier ones.
pub open spec fn spec_candidate_paths(dump: Seq<char>, bundle_id: Seq<char>) -> Seq<Seq<char>> {
    flush_record(scan_lines(split_on(dump, '\n'), bundle_id), bundle_id)
}

fn is_separator_line(line: &Vec<char>) -> (r: bool)
    ensures
        r == is_separator(line@),
{
    if line.len() < 20 {
        return false;
    }
    let mut i: usize = 0;
    while i < line.len()
        invariant
            i <= line@.len(),
            forall|k: int| 0 <= k < i ==> line@[k] == '-',
        decreases line@.len() - i,
    {
        if line[i] != '-' {
            return false;
        }
        i = i + 1;
    }
    true
}

fn strip_serial_exec(v: Vec<char>) -> (r: Vec<char>)
    ensures
        r@ == strip_serial(v@),
{
    if v.len() == 0 || v[v.len() - 1] != ')' {
        return v;
    }
    let pat = chars_of(" (0x");
    let mut i: usize = v.len();
    loop
        invariant
            i <= v@.len(),
            forall|j: int| i < j ==> !occurs_at(v@, pat@, j),
            v@.len() > 0 && v@.last() == ')',
            pat@ == " (0x"@,
        decreases i,
    {
        if matches_at(&v, &pat, i) {
            assert(is_last_occurrence(v@, " (0x"@, i as int));
            let ghost c = choose|j: int| is_last_occurrence(v@, " (0x"@, j);
            assert(c == i) by {
                if c < i {
                    assert(!occurs_at(v@, pat@, i as int) || !is_last_occurrence(v@, " (0x"@, c));
                }
            }
            return sub_chars(&v, 0, i);
        }
        if i == 0 {
            assert(!exists|j: int| is_last_occurrence(v@, " (0x"@, j)) by {
                assert forall|j: int| !is_last_occurrence(v@, " (0x"@, j) by {
                    if j >= 0 {
                        assert(!occurs_at(v@, pat@, j));
                    }
                }
            }
            return v;
        }
        i = i - 1;
    }
}

fn flush_exec(
    found: &mut Vec<String>,
    identifier: &Option<Vec<char>>,
    path: &Option<Vec<char>>,
    bundle: &Vec<char>,
)
    ensures
        strings_view(final(found)@) == flush_record(
            DumpScan { identifier: opt_view(*identifier), path: opt_view(*path), found: strings_view(old(found)@) },
            bundle@,
        ),
{
    let ghost before = strings_view(found@);
    match (identifier, path) {
        (Some(id), Some(p)) => {
            if crate::text::chars_eq(id, bundle) && p.len() > 0 {
                found.push(string_from_chars(sub_chars(p, 0, p.len())));
                assert(strings_view(found@) =~= before.push(p@)) by {
                    assert(p@.subrange(0, p@.len() as int) =~= p@);
                }
            }
        },
        _ => {},
    }
}

pub open spec fn strings_view(v: Seq<String>) -> Seq<Seq<char>> {
    v.map_values(|s: String| s@)
}

pub open spec fn opt_view(o: Option<Vec<char>>) -> Option<Seq<char>> {
    match o {
        Some(v) => Some(v@),
        None => None,
    }
}

/// The paths registered under `bundle_id` in an `lsregister -dump`, in order.
pub fn candidate_paths_in_dump(dump: &str, bundle_id: &str) -> (r: Vec<String>)
    ensures
        strings_view(r@) == spec_candidate_paths(dump@, bundle_id@),
{
    let lines = split_chars(&chars_of(dump), '\n');
    let ghost ls = split_on(dump@, '\n');
    let bundle = chars_of(bundle_id);
    let id_prefix = chars_of("identifier:");
    let path_prefix = chars_of("path:");
    proof {
        reveal_strlit("identifier:");
        reveal_strlit("path:");
    }
    let mut identifier: Option<Vec<char>> = None;
    let mut path: Option<Vec<char>> = None;
    let mut found: Vec<String> = Vec::new();
    let n = lines.len();
    let mut k: usize = 0;
    assert(ls.take(0) =~= Seq::<Seq<char>>::empty());
    assert(strings_view(found@) =~= Seq::<Seq<char>>::empty());
    while k < n
        invariant
            k <= n,
            n == lines@.len(),
            ls == lines@.map_values(|v: Vec<char>| v@),
            bundle@ == bundle_id@,
            id_prefix@ == "identifier:"@,
            path_prefix@ == "path:"@,
            scan_lines(ls.take(k as int), bundle@) == (DumpScan {
                identifier: opt_view(identifier),
                path: opt_view(path),
                found: strings_view(found@),
            }),
        decreases n - k,
    {
        assert(ls.take(k + 1).drop_last() =~= ls.take(k as int));
        assert(ls.take(k + 1).last() == lines@[k as int]@);
        let line = trim_whitespace(&lines[k]);
        if is_separator_line(&line) {
            flush_exec(&mut found, &identifier, &path, &bundle);
            identifier = None;
            path = None;
        } else {
            match strip_prefix(&line, &id_prefix) {
                Some(rest) => {
                    identifier = Some(trim_whitespace(&rest));
                },
                None => match strip_prefix(&line, &path_prefix) {
                    Some(rest) => {
                        path = Some(strip_serial_exec(trim_whitespace(&rest)));
                    },
                    None => {},
                },
            }
        }
        k = k + 1;
    }
    assert(ls.take(n as int) =~= ls);
    flush_exec(&mut found, &identifier, &path, &bundle);
    found
}

// ----- ordering paths -----

/// Code-point lexicographic order, which for UTF-8 strings is the byte order `String` sorts by.
pub open spec fn seq_lt(a: Seq<char>, b: Seq<char>) -> bool
    decreases a.len(),
{
    if a.len() == 0 {
        b.len() > 0
    } else if b.len() == 0 {
        false
    } else if a[0] != b[0] {
        a[0] < b[0]
    } else {
        seq_lt(a.drop_first(), b.drop_first())
    }
}

proof fn lemma_seq_lt_irreflexive(a: Seq<char>)
    ensures
        !seq_lt(a, a),
    decreases a.len(),
{
    if a.len() > 0 {
        lemma_seq_lt_irreflexive(a.drop_first());
    }
}

proof fn lemma_seq_lt_trichotomy(a: Seq<char>, b: Seq<char>)
    ensures
        a == b || seq_lt(a, b) || seq_lt(b, a),
        !(seq_lt(a, b) && seq_lt(b, a)),
    decreases a.len(),
{
    if a.len() > 0 && b.len() > 0 && a[0] == b[0] {
        lemma_seq_lt_trichotomy(a.drop_first(), b.drop_first());
        if a.drop_first() == b.drop_first() {
            assert(a =~= b) by {
                assert forall|i: int| 0 <= i < a.len() implies a[i] == b[i] by {
                    if i > 0 {
                        assert(a[i] == a.drop_first()[i - 1]);
                        assert(b[i] == b.drop_first()[i - 1]);
                    }
                }
            }
        }
    }
    if a.len() == 0 && b.len() == 0 {
        assert(a =~= b);
    }
}

proof fn lemma_seq_lt_transitive(a: Seq<char>, b: Seq<char>, c: Seq<char>)
    requires
        seq_lt(a, b),
        seq_lt(b, c),
    ensures
        seq_lt(a, c),
    decreases a.len(),
{
    if a.len() > 0 && b.len() > 0 && c.len() > 0 && a[0] == b[0] && b[0] == c[0] {
        lemma_seq_lt_transitive(a.drop_first(), b.drop_first(), c.drop_first());
    }
}

proof fn lemma_seq_lt_common_prefix(a: Seq<char>, b: Seq<char>, i: int)
    requires
        0 <= i <= a.len(),
        i <= b.len(),
        a.take(i) == b.take(i),
    ensures
        seq_lt(a, b) == seq_lt(a.skip(i), b.skip(i)),
    decreases i,
{
    if i > 0 {
        assert(a[0] == a.take(i)[0]);
        assert(b[0] == b.take(i)[0]);
        assert(a.drop_first().take(i - 1) =~= a.take(i).drop_first());
        assert(b.drop_first().take(i - 1) =~= b.take(i).drop_first());
        lemma_seq_lt_common_prefix(a.drop_first(), b.drop_first(), i - 1);
        assert(a.drop_first().skip(i - 1) =~= a.skip(i));
        assert(b.drop_first().skip(i - 1) =~= b.skip(i));
    } else {
        assert(a.skip(0) =~= a);
        assert(b.skip(0) =~= b);
    }
}

/// Whether `a` sorts before `b`.
pub fn chars_lt(a: &Vec<char>, b: &Vec<char>) -> (r: bool)
    ensures
        r == seq_lt(a@, b@),
{
    let mut i: usize = 0;
    while i < a.len() && i < b.len() && a[i] == b[i]
        invariant
            i <= a@.len(),
            i <= b@.len(),
            a@.take(i as int) == b@.take(i as int),
        decreases a@.len() - i,
    {
        assert(a@.take(i + 1) =~= a@.take(i as int).push(a@[i as int]));
        assert(b@.take(i + 1) =~= b@.take(i as int).push(b@[i as int]));
        i = i + 1;
    }
    proof {
        lemma_seq_lt_common_prefix(a@, b@, i as int);
    }
    if i == a.len() {
        i < b.len()
    } else if i == b.len() {
        false
    } else {
        a[i] < b[i]
    }
}

/// `s` is in strictly increasing order, so it holds no repeats.
pub open spec fn strictly_sorted(s: Seq<Seq<char>>) -> bool {
    forall|i: int, j: int| 0 <= i < j < s.len() ==> seq_lt(s[i], s[j])
}

/// The candidates whose path does not exist, as a set.
pub open spec fn dead_among(candidates: Seq<Seq<char>>, exists: Seq<bool>, x: Seq<char>) -> bool {
    exists|k: int| 0 <= k < candidates.len() && candidates[k] == x && !exists[k]
}

/// The dead paths among the candidates (`exists[k]` tells whether `candidates[k]` is still
/// on disk), sorted and without repeats: unregistering a path twice is pointless.
pub fn stale_paths(candidates: &[String], exists: &[bool]) -> (r: Vec<String>)
    requires
        exists@.len() == candidates@.len(),
    ensures
        strictly_sorted(strings_view(r@)),
        forall|x: Seq<char>|
            strings_view(r@).contains(x) <==> dead_among(strings_view(candidates@), exists@, x),
{
    let ghost cs = strings_view(candidates@);
    let mut out: Vec<String> = Vec::new();
    let n = candidates.len();
    let mut k: usize = 0;
    while k < n
        invariant
            k <= n,
            n == candidates@.len(),
            exists@.len() == n,
            cs == strings_view(candidates@),
            strictly_sorted(strings_view(out@)),
            forall|x: Seq<char>|
                strings_view(out@).contains(x) <==> dead_among(cs.take(k as int), exists@, x),
        decreases n - k,
    {
        let ghost before = strings_view(out@);
        proof {
            assert forall|x: Seq<char>| dead_among(cs.take(k + 1), exists@, x) <==> (dead_among(
                cs.take(k as int),
                exists@,
                x,
            ) || (x == cs[k as int] && !exists@[k as int])) by {
                if dead_among(cs.take(k + 1), exists@, x) {
                    let w = choose|w: int| 0 <= w < k + 1 && cs.take(k + 1)[w] == x && !exists@[w];
                    if w < k {
                        assert(cs.take(k as int)[w] == x);
                    }
                }
                if dead_among(cs.take(k as int), exists@, x) {
                    let w = choose|w: int| 0 <= w < k && cs.take(k as int)[w] == x && !exists@[w];
                    assert(cs.take(k + 1)[w] == x);
                }
                if x == cs[k as int] && !exists@[k as int] {
                    assert(cs.take(k + 1)[k as int] == x);
                }
            }
        }
        if !exists[k] {
            let x = chars_of(candidates[k].as_str());
            let m = out.len();
            let mut i: usize = 0;
            while i < m && chars_lt(&chars_of(out[i].as_str()), &x)
                invariant
                    i <= m,
                    m == out@.len(),
                    before == strings_view(out@),
                    forall|t: int| 0 <= t < i ==> seq_lt(before[t], x@),
                decreases m - i,
            {
                i = i + 1;
            }
            let dup = i < m && crate::text::str_eq(out[i].as_str(), candidates[k].as_str());
            if !dup {
                proof {
                    if i < m {
                        lemma_seq_lt_trichotomy(before[i as int], x@);
                        assert forall|t: int| i < t < m implies seq_lt(x@, before[t]) by {
                            lemma_seq_lt_transitive(x@, before[i as int], before[t]);
                        }
                    }
                }
                out.insert(i, string_from_chars(x));
                let ghost after = strings_view(out@);
                assert(after =~= before.insert(i as int, x@));
                assert(strictly_sorted(after)) by {
                    assert forall|a: int, b: int| 0 <= a < b < after.len() implies seq_lt(
                        after[a],
                        after[b],
                    ) by {
                        if a < i && b < i {
                        } else if a < i && b == i {
                        } else if a < i && b > i {
                            lemma_seq_lt_transitive(before[a], x@, before[b - 1]);
                        } else if a == i {
                        } else {
                        }
                    }
                }
                assert forall|y: Seq<char>| after.contains(y) <==> (before.contains(y) || y == x@) by {
                    if after.contains(y) {
                        let w = choose|w: int| 0 <= w < after.len() && after[w] == y;
                        if w < i {
                            assert(before[w] == y);
                        } else if w > i {
                            assert(before[w - 1] == y);
                        }
                    }
                    if before.contains(y) {
                        let w = choose|w: int| 0 <= w < before.len() && before[w] == y;
                        if w < i {
                            assert(after[w] == y);
                        } else {
                            assert(after[w + 1] == y);
                        }
                    }
                    if y == x@ {
                        assert(after[i as int] == y);
                    }
                }
            } else {
                assert(before[i as int] == x@);
            }
        } else {
            assert forall|x: Seq<char>| dead_among(cs.take(k + 1), exists@, x) <==> dead_among(
                cs.take(k as int),
                exists@,
                x,
            ) by {}
        }
        k = k + 1;
    }
    assert(cs.take(n as int) =~= cs);
    out
}

/// The entries of `paths` whose flag is false, in order.
pub open spec fn not_flagged(paths: Seq<Seq<char>>, flags: Seq<bool>) -> Seq<Seq<char>>
    decreases paths.len(),
{
    if paths.len() == 0 || flags.len() < paths.len() {
        Seq::empty()
    } else {
        let r = not_flagged(paths.drop_last(), flags.take(paths.len() - 1));
        if flags[paths.len() - 1] {
            r
        } else {
            r.push(paths.last())
        }
    }
}

/// The summary of one check: how many dead paths there were, how many were unregistered
/// (`unregistered[k]` for `stale[k]`), and, in order, the paths that were not.
pub fn checked_report(stale: &[String], unregistered: &[bool]) -> (r: Report)
    requires
        unregistered@.len() == stale@.len(),
    ensures
        r matches Report::Checked { stale: s, purged, uncleanable } && s == stale@.len() && purged
            + uncleanable@.len() == stale@.len() && strings_view(uncleanable@) == not_flagged(
            strings_view(stale@),
            unregistered@,
        ),
{
    let ghost ps = strings_view(stale@);
    let mut purged: usize = 0;
    let mut uncleanable: Vec<String> = Vec::new();
    let mut k: usize = 0;
    assert(ps.take(0) =~= Seq::<Seq<char>>::empty());
    while k < stale.len()
        invariant
            k <= stale@.len(),
            unregistered@.len() == stale@.len(),
            ps == strings_view(stale@),
            purged + uncleanable@.len() == k,
            strings_view(uncleanable@) == not_flagged(ps.take(k as int), unregistered@.take(k as int)),
        decreases stale@.len() - k,
    {
        assert(ps.take(k + 1).drop_last() =~= ps.take(k as int));
        assert(unregistered@.take(k + 1).take(k as int) =~= unregistered@.take(k as int));
        let ghost before = strings_view(uncleanable@);
        if unregistered[k] {
            purged = purged + 1;
        } else {
            uncleanable.push(stale[k].clone());
            assert(strings_view(uncleanable@) =~= before.push(ps[k as int]));
        }
        k = k + 1;
    }
    assert(ps.take(stale@.len() as int) =~= ps);
    assert(unregistered@.take(stale@.len() as int) =~= unregistered@);
    Report::Checked { stale: stale.len(), purged, uncleanable }
}

/// The text of the stub `Info.plist` used to unregister a dead path.
pub open spec fn spec_stub_info_plist(bundle_id: Seq<char>) -> Seq<char> {
    "<?xml version=\"1.0\" encoding=\"UTF-8\"?>\n<!DOCTYPE plist PUBLIC \"-//Apple//DTD PLIST 1.0//EN\" \"http://www.apple.com/DTDs/PropertyList-1.0.dtd\">\n<plist version=\"1.0\">\n<dict>\n    <key>CFBundleIdentifier</key>\n    <string>"@
        + bundle_id
        + "</string>\n    <key>CFBundleName</key>\n    <string>LSTombstone</string>\n    <key>CFBundleExecutable</key>\n    <string>LSTombstone</string>\n    <key>CFBundlePackageType</key>\n    <string>APPL</string>\n</dict>\n</plist>\n"@
}

/// The minimal `Info.plist` of the stub bundle that a dead path is rebuilt with so that
/// `lsregister -u` can unregister it: its `CFBundleIdentifier` must be the record's.
pub fn stub_info_plist(bundle_id: &str) -> (s: String)
    ensures
        s@ == spec_stub_info_plist(bundle_id@),
{
    let mut out = chars_of(
        "<?xml version=\"1.0\" encoding=\"UTF-8\"?>\n<!DOCTYPE plist PUBLIC \"-//Apple//DTD PLIST 1.0//EN\" \"http://www.apple.com/DTDs/PropertyList-1.0.dtd\">\n<plist version=\"1.0\">\n<dict>\n    <key>CFBundleIdentifier</key>\n    <string>",
    );
    push_str(&mut out, bundle_id);
    push_str(
        &mut out,
        "</string>\n    <key>CFBundleName</key>\n    <string>LSTombstone</string>\n    <key>CFBundleExecutable</key>\n    <string>LSTombstone</string>\n    <key>CFBundlePackageType</key>\n    <string>APPL</string>\n</dict>\n</plist>\n",
    );
    string_from_chars(out)
}

} // verus!
