//! Confinement of peer-supplied relative paths to a local cache directory.
//!
//! Both `/` and `\` separate path segments, whatever the host platform, so that a name built
//! for one platform cannot smuggle a traversal onto another.

use vstd::prelude::*;
use crate::text::{chars_of, push_chars, string_from_chars, sub_chars, lead_count, trail_count, trim_by,
    lemma_lead_count_is, lemma_trail_count_is};

verus! {

#[derive(Debug, Clone, Copy, PartialEq, Eq)]
pub enum PathSecurityError {
    AbsolutePathForbidden,
    ParentTraversalForbidden,
    ReservedWindowsName,
    InvalidCharacter,
}

impl PathSecurityError {
    /// The user-facing description of the error.
    pub fn message(&self) -> (s: String)
        ensures
            s@ == self.spec_message(),
    {
        let text = match self {
            PathSecurityError::AbsolutePathForbidden => "Absolute paths are strictly forbidden",
            PathSecurityError::ParentTraversalForbidden => "Parent directory traversal (..) is forbidden",
            PathSecurityError::ReservedWindowsName => "Reserved Windows device name detected",
            PathSecurityError::InvalidCharacter => "Path contains invalid or dangerous characters",
        };
        string_from_chars(chars_of(text))
    }

    pub open spec fn spec_message(self) -> Seq<char> {
        match self {
            PathSecurityError::AbsolutePathForbidden => "Absolute paths are strictly forbidden"@,
            PathSecurityError::ParentTraversalForbidden => "Parent directory traversal (..) is forbidden"@,
            PathSecurityError::ReservedWindowsName => "Reserved Windows device name detected"@,
            PathSecurityError::InvalidCharacter => "Path contains invalid or dangerous characters"@,
        }
    }
}

pub struct PathGuard;

pub open spec fn is_separator(c: char) -> bool {
    c == '/' || c == '\\'
}

pub open spec fn is_ascii_letter(c: char) -> bool {
    ('a' <= c && c <= 'z') || ('A' <= c && c <= 'Z')
}

/// Rooted (`/x`, `\x`) or carrying a drive prefix (`C:`).
pub open spec fn is_absolute_path(p: Seq<char>) -> bool {
    (p.len() > 0 && is_separator(p[0])) || (p.len() >= 2 && p[1] == ':' && is_ascii_letter(p[0]))
}

/// The segments between separators, in order (empty ones included).
pub open spec fn split_path(s: Seq<char>) -> Seq<Seq<char>>
    decreases s.len(),
{
    if s.len() == 0 {
        seq![Seq::<char>::empty()]
    } else {
        let prev = split_path(s.drop_last());
        if is_separator(s.last()) {
            prev.push(Seq::<char>::empty())
        } else {
            prev.update(prev.len() - 1, prev.last().push(s.last()))
        }
    }
}

pub open spec fn ascii_upper(c: char) -> char {
    if 'a' <= c && c <= 'z' {
        ((c as u32) - 32) as char
    } else {
        c
    }
}

/// The part of a segment before its first dot.
pub open spec fn stem(seg: Seq<char>) -> Seq<char>
    decreases seg.len(),
{
    if seg.len() == 0 || seg[0] == '.' {
        Seq::empty()
    } else {
        seq![seg[0]] + stem(seg.drop_first())
    }
}

/// CON, PRN, AUX, NUL, COM1-COM9, LPT1-LPT9 (already upper-cased).
pub open spec fn is_reserved_stem(u: Seq<char>) -> bool {
    ||| (u.len() == 3 && ((u[0] == 'C' && u[1] == 'O' && u[2] == 'N') || (u[0] == 'P' && u[1]
        == 'R' && u[2] == 'N') || (u[0] == 'A' && u[1] == 'U' && u[2] == 'X') || (u[0] == 'N'
        && u[1] == 'U' && u[2] == 'L')))
    ||| (u.len() == 4 && ((u[0] == 'C' && u[1] == 'O' && u[2] == 'M') || (u[0] == 'L' && u[1]
        == 'P' && u[2] == 'T')) && '1' <= u[3] && u[3] <= '9')
}

/// A Windows device name: the stem before the first dot, upper-cased, is reserved.
pub open spec fn is_reserved_name(seg: Seq<char>) -> bool {
    is_reserved_stem(stem(seg).map_values(|c: char| ascii_upper(c)))
}

pub open spec fn is_dot_or_space(c: char) -> bool {
    c == ' ' || c == '.'
}

/// A segment without its leading and trailing dots and spaces.
pub open spec fn trim_segment(seg: Seq<char>) -> Seq<char> {
    trim_by(seg, |c: char| is_dot_or_space(c))
}

/// Keeps the accepted segments of `segs`, trimmed, or gives the error of the first refused one.
/// Empty and `.` segments are skipped; `..` is traversal; a device name is refused whether it
/// stands as sent or only once its padding of dots and spaces is trimmed (` CON`, `..CON`); a
/// segment that trims to nothing is invalid.
pub open spec fn resolve_segments(segs: Seq<Seq<char>>) -> Result<Seq<Seq<char>>, PathSecurityError>
    decreases segs.len(),
{
    if segs.len() == 0 {
        Ok(Seq::empty())
    } else {
        match resolve_segments(segs.drop_last()) {
            Err(e) => Err(e),
            Ok(kept) => resolve_one(kept, segs.last()),
        }
    }
}

pub open spec fn resolve_one(kept: Seq<Seq<char>>, seg: Seq<char>) -> Result<
    Seq<Seq<char>>,
    PathSecurityError,
> {
    if seg.len() == 0 || seg == seq!['.'] {
        Ok(kept)
    } else if seg == seq!['.', '.'] {
        Err(PathSecurityError::ParentTraversalForbidden)
    } else if is_reserved_name(seg) || is_reserved_name(trim_segment(seg)) {
        Err(PathSecurityError::ReservedWindowsName)
    } else if trim_segment(seg).len() == 0 {
        Err(PathSecurityError::InvalidCharacter)
    } else {
        Ok(kept.push(trim_segment(seg)))
    }
}

/// Segments joined with `/`.
pub open spec fn join_segments(segs: Seq<Seq<char>>) -> Seq<char>
    decreases segs.len(),
{
    if segs.len() == 0 {
        Seq::empty()
    } else if segs.len() == 1 {
        segs[0]
    } else {
        join_segments(segs.drop_last()) + seq!['/'] + segs.last()
    }
}

/// `rel` appended to `base` with one separator between them.
pub open spec fn join_base(base: Seq<char>, rel: Seq<char>) -> Seq<char> {
    if base.len() == 0 {
        rel
    } else if is_separator(base.last()) {
        base + rel
    } else {
        base + seq!['/'] + rel
    }
}

/// Where an untrusted relative path lands inside `base`, or why it is refused.
pub open spec fn spec_sanitize_and_resolve(base: Seq<char>, untrusted: Seq<char>) -> Result<
    Seq<char>,
    PathSecurityError,
> {
    if is_absolute_path(untrusted) {
        Err(PathSecurityError::AbsolutePathForbidden)
    } else {
        match resolve_segments(split_path(untrusted)) {
            Err(e) => Err(e),
            Ok(kept) => if kept.len() == 0 {
                Err(PathSecurityError::InvalidCharacter)
            } else {
                Ok(join_base(base, join_segments(kept)))
            },
        }
    }
}

proof fn lemma_split_nonempty(s: Seq<char>)
    ensures
        split_path(s).len() >= 1,
    decreases s.len(),
{
    if s.len() > 0 {
        lemma_split_nonempty(s.drop_last());
    }
}

fn is_reserved(seg: &Vec<char>) -> (b: bool)
    ensures
        b == is_reserved_name(seg@),
{
    let mut u: Vec<char> = Vec::new();
    let n = seg.len();
    let mut i: usize = 0;
    while i < n && seg[i] != '.'
        invariant
            i <= n,
            n == seg@.len(),
            forall|k: int| 0 <= k < i ==> seg@[k] != '.',
            u@ == seg@.take(i as int).map_values(|c: char| ascii_upper(c)),
        decreases n - i,
    {
        let c = seg[i];
        let up = if 'a' <= c && c <= 'z' {
            ((c as u8) - 32) as char
        } else {
            c
        };
        assert(up == ascii_upper(c));
        u.push(up);
        i = i + 1;
        assert(seg@.take(i as int) =~= seg@.take(i - 1).push(c));
        assert(u@ =~= seg@.take(i as int).map_values(|c: char| ascii_upper(c)));
    }
    proof {
        lemma_stem_prefix(seg@, i as int);
    }
    let l = u.len();
    (l == 3 && ((u[0] == 'C' && u[1] == 'O' && u[2] == 'N') || (u[0] == 'P' && u[1] == 'R' && u[2]
        == 'N') || (u[0] == 'A' && u[1] == 'U' && u[2] == 'X') || (u[0] == 'N' && u[1] == 'U'
        && u[2] == 'L'))) || (l == 4 && ((u[0] == 'C' && u[1] == 'O' && u[2] == 'M') || (u[0]
        == 'L' && u[1] == 'P' && u[2] == 'T')) && '1' <= u[3] && u[3] <= '9')
}

proof fn lemma_stem_prefix(seg: Seq<char>, i: int)
    requires
        0 <= i <= seg.len(),
        forall|k: int| 0 <= k < i ==> seg[k] != '.',
        i == seg.len() || seg[i] == '.',
    ensures
        stem(seg) == seg.take(i),
    decreases seg.len(),
{
    if seg.len() == 0 || seg[0] == '.' {
        assert(seg.take(i) =~= Seq::<char>::empty());
    } else {
        lemma_stem_prefix(seg.drop_first(), i - 1);
        assert(seq![seg[0]] + seg.drop_first().take(i - 1) =~= seg.take(i));
    }
}

fn trim_dots_spaces(s: &Vec<char>) -> (out: Vec<char>)
    ensures
        out@ == trim_segment(s@),
{
    let ghost f = |c: char| is_dot_or_space(c);
    assert(forall|c: char| #[trigger] f(c) == is_dot_or_space(c));
    let n = s.len();
    let mut a: usize = 0;
    while a < n && (s[a] == ' ' || s[a] == '.')
        invariant
            a <= n,
            n == s@.len(),
            forall|k: int| 0 <= k < a ==> is_dot_or_space(s@[k]),
        decreases n - a,
    {
        a = a + 1;
    }
    proof {
        lemma_lead_count_is(s@, f, a as int);
    }
    if a == n {
        return Vec::new();
    }
    let mut b: usize = n;
    while b > a && (s[b - 1] == ' ' || s[b - 1] == '.')
        invariant
            a < n,
            a <= b <= n,
            n == s@.len(),
            forall|k: int| b <= k < n ==> is_dot_or_space(s@[k]),
            !is_dot_or_space(s@[a as int]),
        decreases b,
    {
        b = b - 1;
    }
    proof {
        lemma_trail_count_is(s@, f, n - b);
    }
    sub_chars(s, a, b)
}

/// Applies one segment: appends it (trimmed) to the joined output, skips it, or refuses it.
fn resolve_segment(seg: &Vec<char>, out: &mut Vec<char>, count: &mut usize, Ghost(kept): Ghost<
    Seq<Seq<char>>,
>) -> (r: Result<Ghost<Seq<Seq<char>>>, PathSecurityError>)
    requires
        old(out)@ == join_segments(kept),
        *old(count) == kept.len(),
        kept.len() < usize::MAX,
    ensures
        match resolve_one(kept, seg@) {
            Ok(k2) => r matches Ok(g) && g@ == k2 && final(out)@ == join_segments(k2) && *final(count) == k2.len(),
            Err(e) => r == Err::<Ghost<Seq<Seq<char>>>, PathSecurityError>(e),
        },
{
    let n = seg.len();
    if n == 0 || (n == 1 && seg[0] == '.') {
        assert(n == 1 ==> seg@ =~= seq!['.']);
        return Ok(Ghost(kept));
    }
    if n == 2 && seg[0] == '.' && seg[1] == '.' {
        assert(seg@ =~= seq!['.', '.']);
        return Err(PathSecurityError::ParentTraversalForbidden);
    }
    assert(seg@ != seq!['.']);
    assert(seg@ != seq!['.', '.']);
    let trimmed = trim_dots_spaces(seg);
    if is_reserved(seg) || is_reserved(&trimmed) {
        return Err(PathSecurityError::ReservedWindowsName);
    }
    if trimmed.len() == 0 {
        return Err(PathSecurityError::InvalidCharacter);
    }
    if *count > 0 {
        out.push('/');
    }
    push_chars(out, &trimmed);
    *count = *count + 1;
    let ghost k2 = kept.push(trimmed@);
    assert(k2.drop_last() =~= kept);
    assert(out@ =~= join_segments(k2));
    Ok(Ghost(k2))
}

proof fn lemma_split_step(s: Seq<char>, i: int)
    requires
        0 <= i < s.len(),
    ensures
        split_path(s.take(i + 1)) == ({
            let prev = split_path(s.take(i));
            if is_separator(s[i]) {
                prev.push(Seq::<char>::empty())
            } else {
                prev.update(prev.len() - 1, prev.last().push(s[i]))
            }
        }),
{
    assert(s.take(i + 1).drop_last() =~= s.take(i));
}

impl PathGuard {
    /// Sanitizes an untrusted relative path and resolves it inside `base_cache_dir`.
    pub fn sanitize_and_resolve(base_cache_dir: &str, untrusted_path: &str) -> (r: Result<
        String,
        PathSecurityError,
    >)
        requires
            untrusted_path@.len() < usize::MAX,
        ensures
            match spec_sanitize_and_resolve(base_cache_dir@, untrusted_path@) {
                Ok(p) => r matches Ok(s) && s@ == p,
                Err(e) => r == Err::<String, PathSecurityError>(e),
            },
    {
        let cs = chars_of(untrusted_path);
        let n = cs.len();
        if (n > 0 && (cs[0] == '/' || cs[0] == '\\')) || (n >= 2 && cs[1] == ':' && (('a' <= cs[0]
            && cs[0] <= 'z') || ('A' <= cs[0] && cs[0] <= 'Z'))) {
            return Err(PathSecurityError::AbsolutePathForbidden);
        }
        let mut rel: Vec<char> = Vec::new();
        let mut count: usize = 0;
        let mut cur: Vec<char> = Vec::new();
        let ghost mut done: Seq<Seq<char>> = Seq::empty();
        let ghost mut kept: Seq<Seq<char>> = Seq::empty();
        let mut i: usize = 0;
        assert(cs@.take(0) =~= Seq::<char>::empty());
        while i < n
            invariant
                i <= n,
                n == cs@.len(),
                n < usize::MAX,
                !is_absolute_path(cs@),
                cs@ == untrusted_path@,
                split_path(cs@.take(i as int)) == done.push(cur@),
                resolve_segments(done) == Ok::<Seq<Seq<char>>, PathSecurityError>(kept),
                rel@ == join_segments(kept),
                count == kept.len(),
                kept.len() <= done.len(),
                done.len() <= i,
            decreases n - i,
        {
            let c = cs[i];
            proof {
                lemma_split_step(cs@, i as int);
            }
            if c == '/' || c == '\\' {
                match resolve_segment(&cur, &mut rel, &mut count, Ghost(kept)) {
                    Ok(g) => {
                        proof {
                            let d2 = done.push(cur@);
                            assert(d2.drop_last() =~= done);
                            done = d2;
                            kept = g@;
                        }
                    },
                    Err(e) => {
                        proof {
                            let d2 = done.push(cur@);
                            assert(d2.drop_last() =~= done);
                            let p = cs@.take(i as int + 1);
                            assert(p == cs@.take(p.len() as int));
                            lemma_split_extends(p, cs@);
                            assert(split_path(p) == d2.push(Seq::<char>::empty()));
                            assert(split_path(cs@).take(d2.len() as int) =~= d2);
                            assert(resolve_segments(d2) == resolve_one(kept, cur@));
                            assert(resolve_segments(d2) == Err::<Seq<Seq<char>>, PathSecurityError>(e));
                            lemma_resolve_err_sticks(split_path(cs@), d2.len() as int);
                            assert(resolve_segments(split_path(cs@)) == Err::<Seq<Seq<char>>, PathSecurityError>(e));
                            assert(!is_absolute_path(cs@));
                        }
                        return Err(e);
                    },
                }
                cur = Vec::new();
            } else {
                cur.push(c);
            }
            i = i + 1;
        }
        assert(cs@.take(n as int) =~= cs@);
        let ghost all = done.push(cur@);
        assert(all.drop_last() =~= done);
        match resolve_segment(&cur, &mut rel, &mut count, Ghost(kept)) {
            Ok(_) => {
                if count == 0 {
                    return Err(PathSecurityError::InvalidCharacter);
                }
                let mut out = chars_of(base_cache_dir);
                let bl = out.len();
                if bl > 0 && out[bl - 1] != '/' && out[bl - 1] != '\\' {
                    out.push('/');
                }
                push_chars(&mut out, &rel);
                Ok(string_from_chars(out))
            },
            Err(e) => Err(e),
        }
    }

    /// Whether a path segment names a Windows device (CON, PRN, AUX, NUL, COM1-9, LPT1-9),
    /// judged on the part before its first dot, case-insensitively.
    pub fn is_windows_reserved_name(name: &str) -> (b: bool)
        ensures
            b == is_reserved_name(name@),
    {
        let cs = chars_of(name);
        is_reserved(&cs)
    }
}

/// Splitting a longer text keeps the complete segments of its prefix.
proof fn lemma_split_extends(p: Seq<char>, w: Seq<char>)
    requires
        p.len() <= w.len(),
        p == w.take(p.len() as int),
    ensures
        split_path(w).len() >= split_path(p).len(),
        forall|k: int| 0 <= k < split_path(p).len() - 1 ==> split_path(w)[k] == split_path(p)[k],
    decreases w.len() - p.len(),
{
    lemma_split_nonempty(p);
    if w.len() > p.len() {
        let w1 = w.drop_last();
        assert(p == w1.take(p.len() as int));
        lemma_split_extends(p, w1);
        lemma_split_nonempty(w1);
    } else {
        assert(p =~= w);
    }
}

/// Once a prefix of the segments is refused, the whole list is refused the same way.
proof fn lemma_resolve_err_sticks(segs: Seq<Seq<char>>, k: int)
    requires
        0 <= k <= segs.len(),
        resolve_segments(segs.take(k)) is Err,
    ensures
        resolve_segments(segs) == resolve_segments(segs.take(k)),
    decreases segs.len() - k,
{
    if k < segs.len() {
        let s1 = segs.drop_last();
        assert(s1.take(k) =~= segs.take(k));
        lemma_resolve_err_sticks(s1, k);
    } else {
        assert(segs.take(k) =~= segs);
    }
}

/// A segment that names an ordinary entry: non-empty, no separator, neither starting nor
/// ending with a dot or a space (so in particular neither `.` nor `..`), and no Windows device
/// name.
pub open spec fn is_safe_segment(seg: Seq<char>) -> bool {
    &&& seg.len() > 0
    &&& !is_reserved_name(seg)
    &&& !is_dot_or_space(seg[0])
    &&& !is_dot_or_space(seg.last())
    &&& forall|j: int| 0 <= j < seg.len() ==> !is_separator(#[trigger] seg[j])
}

proof fn lemma_split_no_separator(s: Seq<char>)
    ensures
        forall|k: int, j: int|
            0 <= k < split_path(s).len() && 0 <= j < split_path(s)[k].len() ==> !is_separator(
                #[trigger] split_path(s)[k][j],
            ),
    decreases s.len(),
{
    if s.len() > 0 {
        lemma_split_no_separator(s.drop_last());
        lemma_split_nonempty(s.drop_last());
    }
}

proof fn lemma_trim_segment_safe(seg: Seq<char>)
    requires
        trim_segment(seg).len() > 0,
        !is_reserved_name(trim_segment(seg)),
        forall|j: int| 0 <= j < seg.len() ==> !is_separator(#[trigger] seg[j]),
    ensures
        is_safe_segment(trim_segment(seg)),
{
    let f = |c: char| is_dot_or_space(c);
    crate::text::lemma_lead_count_bound(seg, f);
    crate::text::lemma_trail_count_bound(seg, f);
    let a = lead_count(seg, f);
    let b = trail_count(seg, f);
    let t = trim_segment(seg);
    assert(a < seg.len());
    assert(t == seg.subrange(a as int, seg.len() - b));
    if seg.len() - b <= a {
        assert(t.len() == 0);
    }
    assert(t[0] == seg[a as int]);
    assert(b < seg.len()) by {
        if b == seg.len() {
            assert(f(seg[a as int]));
        }
    }
    assert(t.last() == seg[seg.len() - 1 - b]);
}

proof fn lemma_resolved_segments_safe(segs: Seq<Seq<char>>)
    requires
        resolve_segments(segs) is Ok,
        forall|k: int, j: int|
            0 <= k < segs.len() && 0 <= j < segs[k].len() ==> !is_separator(#[trigger] segs[k][j]),
    ensures
        forall|k: int|
            0 <= k < resolve_segments(segs)->Ok_0.len() ==> is_safe_segment(
                #[trigger] resolve_segments(segs)->Ok_0[k],
            ),
    decreases segs.len(),
{
    if segs.len() > 0 {
        let s1 = segs.drop_last();
        assert forall|k: int, j: int|
            0 <= k < s1.len() && 0 <= j < s1[k].len() implies !is_separator(#[trigger] s1[k][j]) by {
            assert(s1[k] == segs[k]);
        }
        lemma_resolved_segments_safe(s1);
        let seg = segs.last();
        let kept = resolve_segments(s1)->Ok_0;
        if !(seg.len() == 0 || seg == seq!['.']) {
            assert forall|j: int| 0 <= j < seg.len() implies !is_separator(#[trigger] seg[j]) by {
                assert(seg[j] == segs[segs.len() - 1][j]);
            }
            lemma_trim_segment_safe(seg);
        }
    }
}

proof fn lemma_split_append_plain(x: Seq<char>, y: Seq<char>)
    requires
        forall|j: int| 0 <= j < y.len() ==> !is_separator(#[trigger] y[j]),
    ensures
        split_path(x + y) == split_path(x).update(
            split_path(x).len() - 1,
            split_path(x).last() + y,
        ),
    decreases y.len(),
{
    lemma_split_nonempty(x);
    if y.len() == 0 {
        assert(x + y =~= x);
        assert(split_path(x).last() + y =~= split_path(x).last());
        assert(split_path(x).update(split_path(x).len() - 1, split_path(x).last()) =~= split_path(
            x,
        ));
    } else {
        let y1 = y.drop_last();
        lemma_split_append_plain(x, y1);
        assert((x + y).drop_last() =~= x + y1);
        assert((x + y).last() == y.last());
        assert(split_path(x).last() + y1 + seq![y.last()] =~= split_path(x).last() + y);
        assert(!is_separator(y[y.len() - 1]));
        let prev = split_path(x + y1);
        let sx = split_path(x);
        assert(prev.len() == sx.len());
        assert(prev.last() == sx.last() + y1);
        assert(split_path(x + y) == prev.update(prev.len() - 1, prev.last().push(y.last())));
        assert((sx.last() + y1).push(y.last()) =~= sx.last() + y);
        assert(split_path(x + y) =~= split_path(x).update(
            split_path(x).len() - 1,
            split_path(x).last() + y,
        ));
    }
}

proof fn lemma_split_join(kept: Seq<Seq<char>>)
    requires
        kept.len() > 0,
        forall|k: int| 0 <= k < kept.len() ==> is_safe_segment(#[trigger] kept[k]),
    ensures
        split_path(join_segments(kept)) == kept,
    decreases kept.len(),
{
    if kept.len() == 1 {
        lemma_split_append_plain(Seq::empty(), kept[0]);
        assert(Seq::<char>::empty() + kept[0] =~= kept[0]);
        assert(split_path(Seq::<char>::empty()).last() + kept[0] =~= kept[0]);
        assert(seq![Seq::<char>::empty()].update(0, kept[0]) =~= kept);
    } else {
        let k1 = kept.drop_last();
        lemma_split_join(k1);
        let j1 = join_segments(k1);
        let with_sep = j1 + seq!['/'];
        assert(with_sep.drop_last() =~= j1);
        assert(split_path(with_sep) == k1.push(Seq::<char>::empty()));
        let last = kept.last();
        assert(is_safe_segment(kept[kept.len() - 1]));
        lemma_split_append_plain(with_sep, last);
        assert(Seq::<char>::empty() + last =~= last);
        assert(k1.push(Seq::<char>::empty()).update(k1.len() as int, last) =~= kept);
        assert(join_segments(kept) == with_sep + last);
    }
}

/// Confinement: a path that is accepted lands inside the base directory, as the base, one
/// separator, and a relative part whose every segment is an ordinary entry name; in
/// particular no `..`, `.`, empty or Windows device-name segment survives.
pub proof fn lemma_resolved_path_is_confined(base: Seq<char>, untrusted: Seq<char>)
    requires
        spec_sanitize_and_resolve(base, untrusted) is Ok,
    ensures
        exists|rel: Seq<char>|
            {
                &&& spec_sanitize_and_resolve(base, untrusted)->Ok_0 == join_base(base, rel)
                &&& split_path(rel).len() > 0
                &&& forall|k: int|
                    0 <= k < split_path(rel).len() ==> is_safe_segment(#[trigger] split_path(rel)[k])
            },
{
    let segs = split_path(untrusted);
    lemma_split_no_separator(untrusted);
    lemma_resolved_segments_safe(segs);
    let kept = resolve_segments(segs)->Ok_0;
    lemma_split_join(kept);
    let rel = join_segments(kept);
    assert(spec_sanitize_and_resolve(base, untrusted)->Ok_0 == join_base(base, rel));
}

} // verus!
