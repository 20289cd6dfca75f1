//! Character-level helpers shared by the text-handling parts of the library.

use vstd::prelude::*;

verus! {

/// Collects the characters of `s` into a vector.
pub fn chars_of(s: &str) -> (out: Vec<char>)
    ensures
        out@ == s@,
{
    let mut out: Vec<char> = Vec::new();
    for c in it: s.chars()
        invariant
            out@ == it.seq().take(it.index() as int),
            it.seq() == s@,
    {
        out.push(c);
    }
    out
}

/// Calls `String::from_iter` on the characters; the string holds exactly these characters.
#[verifier::external_body]
pub fn string_from_chars(chars: Vec<char>) -> (s: String)
    ensures
        s@ == chars@,
{
    String::from_iter(chars)
}

/// Appends the characters of `s` to `out`.
pub fn push_str(out: &mut Vec<char>, s: &str)
    ensures
        final(out)@ == old(out)@ + s@,
{
    let cs = chars_of(s);
    push_chars(out, &cs);
}

/// Appends `cs` to `out`.
pub fn push_chars(out: &mut Vec<char>, cs: &Vec<char>)
    ensures
        final(out)@ == old(out)@ + cs@,
{
    let n = cs.len();
    let mut i: usize = 0;
    while i < n
        invariant
            n == cs@.len(),
            i <= n,
            out@ == old(out)@ + cs@.take(i as int),
        decreases n - i,
    {
        out.push(cs[i]);
        i = i + 1;
        assert(cs@.take(i as int) =~= cs@.take(i - 1).push(cs@[i - 1]));
    }
    assert(cs@.take(n as int) =~= cs@);
}

/// The characters `cs[from..to]`.
pub fn sub_chars(cs: &Vec<char>, from: usize, to: usize) -> (out: Vec<char>)
    requires
        from <= to <= cs@.len(),
    ensures
        out@ == cs@.subrange(from as int, to as int),
{
    let mut out: Vec<char> = Vec::new();
    let mut i: usize = from;
    while i < to
        invariant
            from <= i <= to,
            to <= cs@.len(),
            out@ == cs@.subrange(from as int, i as int),
        decreases to - i,
    {
        out.push(cs[i]);
        i = i + 1;
        assert(out@ =~= cs@.subrange(from as int, i as int));
    }
    out
}

/// Character-wise equality of two character sequences.
pub fn chars_eq(a: &Vec<char>, b: &Vec<char>) -> (r: bool)
    ensures
        r == (a@ == b@),
{
    if a.len() != b.len() {
        return false;
    }
    let n = a.len();
    let mut i: usize = 0;
    while i < n
        invariant
            n == a@.len(),
            n == b@.len(),
            i <= n,
            forall|k: int| 0 <= k < i ==> a@[k] == b@[k],
        decreases n - i,
    {
        if a[i] != b[i] {
            return false;
        }
        i = i + 1;
    }
    assert(a@ =~= b@);
    true
}

/// `s` and `t` hold the same characters.
pub fn str_eq(s: &str, t: &str) -> (r: bool)
    ensures
        r == (s@ == t@),
{
    let a = chars_of(s);
    let b = chars_of(t);
    chars_eq(&a, &b)
}

/// `p` occurs in `s` at position `i`.
pub open spec fn occurs_at(s: Seq<char>, p: Seq<char>, i: int) -> bool {
    0 <= i && i + p.len() <= s.len() && s.subrange(i, i + p.len()) == p
}

/// `p` occurs somewhere in `s`.
pub open spec fn contains_seq(s: Seq<char>, p: Seq<char>) -> bool {
    exists|i: int| occurs_at(s, p, i)
}

/// Whether `p` occurs in `s` at position `i`.
pub fn matches_at(s: &Vec<char>, p: &Vec<char>, i: usize) -> (r: bool)
    ensures
        r == occurs_at(s@, p@, i as int),
{
    if i > s.len() || p.len() > s.len() - i {
        return false;
    }
    let n = p.len();
    let mut k: usize = 0;
    while k < n
        invariant
            n == p@.len(),
            i + n <= s.len(),
            k <= n,
            forall|j: int| 0 <= j < k ==> s@[i + j] == p@[j],
        decreases n - k,
    {
        if s[i + k] != p[k] {
            assert(s@.subrange(i as int, i + p@.len())[k as int] != p@[k as int]);
            return false;
        }
        k = k + 1;
    }
    assert(s@.subrange(i as int, i + p@.len()) =~= p@);
    true
}

/// The first position at or after `from` where `p` occurs in `s`.
pub fn find_from(s: &Vec<char>, p: &Vec<char>, from: usize) -> (r: Option<usize>)
    requires
        from <= s@.len(),
    ensures
        r matches Some(i) ==> from <= i && occurs_at(s@, p@, i as int) && forall|j: int|
            from <= j < i ==> !occurs_at(s@, p@, j),
        r is None ==> forall|j: int| from <= j ==> !occurs_at(s@, p@, j),
{
    let n = s.len();
    let mut i: usize = from;
    while i <= n
        invariant
            from <= i <= n,
            n == s@.len(),
            forall|j: int| from <= j < i ==> !occurs_at(s@, p@, j),
        decreases n + 1 - i,
    {
        if matches_at(s, p, i) {
            return Some(i);
        }
        if i == n {
            assert forall|j: int| from <= j implies !occurs_at(s@, p@, j) by {
                if j > n {
                    assert(!occurs_at(s@, p@, j));
                }
            }
            return None;
        }
        i = i + 1;
    }
    None
}

/// Whether `p` occurs anywhere in `s`.
pub fn contains_chars(s: &Vec<char>, p: &Vec<char>) -> (r: bool)
    ensures
        r == contains_seq(s@, p@),
{
    match find_from(s, p, 0) {
        Some(_) => true,
        None => false,
    }
}

/// Rust's `char::is_whitespace`: the Unicode `White_Space` property.
pub open spec fn is_unicode_whitespace(c: char) -> bool {
    ||| '\u{9}' <= c <= '\u{d}'
    ||| c == ' '
    ||| c == '\u{85}'
    ||| c == '\u{a0}'
    ||| c == '\u{1680}'
    ||| '\u{2000}' <= c <= '\u{200a}'
    ||| c == '\u{2028}'
    ||| c == '\u{2029}'
    ||| c == '\u{202f}'
    ||| c == '\u{205f}'
    ||| c == '\u{3000}'
}

pub fn is_whitespace(c: char) -> (b: bool)
    ensures
        b == is_unicode_whitespace(c),
{
    ('\u{9}' <= c && c <= '\u{d}') || c == ' ' || c == '\u{85}' || c == '\u{a0}' || c == '\u{1680}'
        || ('\u{2000}' <= c && c <= '\u{200a}') || c == '\u{2028}' || c == '\u{2029}' || c
        == '\u{202f}' || c == '\u{205f}' || c == '\u{3000}'
}

/// Rust's `char::is_control`: the Unicode general category `Cc`.
pub open spec fn is_unicode_control(c: char) -> bool {
    c <= '\u{1f}' || ('\u{7f}' <= c && c <= '\u{9f}')
}

pub fn is_control(c: char) -> (b: bool)
    ensures
        b == is_unicode_control(c),
{
    c <= '\u{1f}' || ('\u{7f}' <= c && c <= '\u{9f}')
}

/// Number of leading characters of `s` that satisfy `f`.
pub open spec fn lead_count(s: Seq<char>, f: spec_fn(char) -> bool) -> nat
    decreases s.len(),
{
    if s.len() == 0 {
        0
    } else if f(s[0]) {
        1 + lead_count(s.drop_first(), f)
    } else {
        0
    }
}

/// Number of trailing characters of `s` that satisfy `f`.
pub open spec fn trail_count(s: Seq<char>, f: spec_fn(char) -> bool) -> nat
    decreases s.len(),
{
    if s.len() == 0 {
        0
    } else if f(s.last()) {
        1 + trail_count(s.drop_last(), f)
    } else {
        0
    }
}

/// `s` with the characters satisfying `f` removed from both ends (`str::trim_matches`).
pub open spec fn trim_by(s: Seq<char>, f: spec_fn(char) -> bool) -> Seq<char> {
    let a = lead_count(s, f);
    if a == s.len() {
        Seq::empty()
    } else {
        s.subrange(a as int, s.len() - trail_count(s, f))
    }
}

/// `s` without leading and trailing Unicode whitespace (`str::trim`).
pub open spec fn trim_ws(s: Seq<char>) -> Seq<char> {
    trim_by(s, |c: char| is_unicode_whitespace(c))
}

pub proof fn lemma_lead_count_bound(s: Seq<char>, f: spec_fn(char) -> bool)
    ensures
        lead_count(s, f) <= s.len(),
        forall|k: int| 0 <= k < lead_count(s, f) ==> f(s[k]),
        lead_count(s, f) < s.len() ==> !f(s[lead_count(s, f) as int]),
    decreases s.len(),
{
    if s.len() > 0 && f(s[0]) {
        lemma_lead_count_bound(s.drop_first(), f);
        assert forall|k: int| 0 <= k < lead_count(s, f) implies f(s[k]) by {
            if k > 0 {
                assert(s[k] == s.drop_first()[k - 1]);
            }
        }
    }
}

pub proof fn lemma_trail_count_bound(s: Seq<char>, f: spec_fn(char) -> bool)
    ensures
        trail_count(s, f) <= s.len(),
        forall|k: int| s.len() - trail_count(s, f) <= k < s.len() ==> f(s[k]),
        trail_count(s, f) < s.len() ==> !f(s[s.len() - 1 - trail_count(s, f)]),
    decreases s.len(),
{
    if s.len() > 0 && f(s.last()) {
        lemma_trail_count_bound(s.drop_last(), f);
        assert forall|k: int| s.len() - trail_count(s, f) <= k < s.len() implies f(s[k]) by {
            if k < s.len() - 1 {
                assert(s[k] == s.drop_last()[k]);
            }
        }
    }
}

/// The leading count is the first position whose character fails `f`.
pub proof fn lemma_lead_count_is(s: Seq<char>, f: spec_fn(char) -> bool, n: int)
    requires
        0 <= n <= s.len(),
        forall|k: int| 0 <= k < n ==> f(s[k]),
        n < s.len() ==> !f(s[n]),
    ensures
        lead_count(s, f) == n,
    decreases s.len(),
{
    if s.len() > 0 && n > 0 {
        lemma_lead_count_is(s.drop_first(), f, n - 1);
    }
}

/// The trailing count is the distance from the end to the last character that fails `f`.
pub proof fn lemma_trail_count_is(s: Seq<char>, f: spec_fn(char) -> bool, n: int)
    requires
        0 <= n <= s.len(),
        forall|k: int| s.len() - n <= k < s.len() ==> f(s[k]),
        n < s.len() ==> !f(s[s.len() - 1 - n]),
    ensures
        trail_count(s, f) == n,
    decreases s.len(),
{
    if s.len() > 0 && n > 0 {
        lemma_trail_count_is(s.drop_last(), f, n - 1);
    }
}

/// `s` without leading and trailing whitespace.
pub fn trim_whitespace(s: &Vec<char>) -> (out: Vec<char>)
    ensures
        out@ == trim_ws(s@),
{
    let ghost f = |c: char| is_unicode_whitespace(c);
    assert(forall|c: char| #[trigger] f(c) == is_unicode_whitespace(c));
    let n = s.len();
    let mut a: usize = 0;
    while a < n && is_whitespace(s[a])
        invariant
            a <= n,
            n == s@.len(),
            forall|k: int| 0 <= k < a ==> is_unicode_whitespace(s@[k]),
        decreases n - a,
    {
        a = a + 1;
    }
    proof {
        lemma_lead_count_is(s@, f, a as int);
    }
    if a == n {
        return Vec::new();
    }
    let mut b: usize = n;
    while b > a && is_whitespace(s[b - 1])
        invariant
            a < n,
            a <= b <= n,
            n == s@.len(),
            forall|k: int| b <= k < n ==> is_unicode_whitespace(s@[k]),
            !is_unicode_whitespace(s@[a as int]),
        decreases b,
    {
        b = b - 1;
    }
    proof {
        lemma_trail_count_is(s@, f, n - b);
    }
    sub_chars(s, a, b)
}

/// The position of the first `c` in `s`, or the length of `s` when there is none.
pub open spec fn first_index(s: Seq<char>, c: char) -> int
    decreases s.len(),
{
    if s.len() == 0 {
        0
    } else if s[0] == c {
        0
    } else {
        1 + first_index(s.drop_first(), c)
    }
}

/// The pieces of `s` between occurrences of `sep`, as `str::split` yields them: one more
/// piece than there are separators, empty pieces included.
pub open spec fn split_on(s: Seq<char>, sep: char) -> Seq<Seq<char>>
    decreases s.len(),
{
    let i = first_index(s, sep);
    if 0 <= i < s.len() {
        seq![s.take(i)] + split_on(s.skip(i + 1), sep)
    } else {
        seq![s]
    }
}

/// `first_index` is the first position holding `c`.
pub proof fn lemma_first_index_is(s: Seq<char>, c: char, k: int)
    requires
        0 <= k <= s.len(),
        forall|j: int| 0 <= j < k ==> s[j] != c,
        k == s.len() || s[k] == c,
    ensures
        first_index(s, c) == k,
    decreases s.len(),
{
    if s.len() > 0 && k > 0 {
        lemma_first_index_is(s.drop_first(), c, k - 1);
    }
}

/// Splits `s` at every `sep`, like `str::split` with a single-character pattern.
pub fn split_chars(s: &Vec<char>, sep: char) -> (out: Vec<Vec<char>>)
    ensures
        out@.map_values(|v: Vec<char>| v@) == split_on(s@, sep),
{
    let n = s.len();
    let mut out: Vec<Vec<char>> = Vec::new();
    let mut start: usize = 0;
    let mut i: usize = 0;
    assert(s@.skip(0) =~= s@);
    assert(out@.map_values(|v: Vec<char>| v@) + split_on(s@, sep) =~= split_on(s@, sep));
    while i < n
        invariant
            n == s@.len(),
            start <= i <= n,
            forall|j: int| start <= j < i ==> s@[j] != sep,
            split_on(s@, sep) == out@.map_values(|v: Vec<char>| v@) + split_on(s@.skip(start as int), sep),
        decreases n - i,
    {
        if s[i] == sep {
            let piece = sub_chars(s, start, i);
            let ghost t = s@.skip(start as int);
            let ghost k = i - start;
            proof {
                lemma_first_index_is(t, sep, k);
                assert(t.take(k) =~= piece@);
                assert(t.skip(k + 1) =~= s@.skip(i + 1));
                assert(split_on(t, sep) == seq![t.take(k)] + split_on(t.skip(k + 1), sep));
            }
            let ghost before = out@.map_values(|v: Vec<char>| v@);
            out.push(piece);
            assert(out@.map_values(|v: Vec<char>| v@) =~= before.push(piece@));
            start = i + 1;
        }
        i = i + 1;
    }
    let last = sub_chars(s, start, n);
    let ghost t = s@.skip(start as int);
    proof {
        lemma_first_index_is(t, sep, t.len() as int);
        assert(t =~= last@);
    }
    let ghost before = out@.map_values(|v: Vec<char>| v@);
    out.push(last);
    assert(out@.map_values(|v: Vec<char>| v@) =~= before.push(last@));
    out
}

pub open spec fn is_ascii_digit(c: char) -> bool {
    '0' <= c <= '9'
}

pub open spec fn all_digits(s: Seq<char>) -> bool {
    forall|i: int| 0 <= i < s.len() ==> #[trigger] is_ascii_digit(s[i])
}

/// The number a run of decimal digits stands for.
pub open spec fn digits_value(s: Seq<char>) -> nat
    decreases s.len(),
{
    if s.len() == 0 {
        0
    } else {
        digits_value(s.drop_last()) * 10 + ((s.last() as int) - 48) as nat
    }
}

/// What `str::parse::<u32>` gives: an optional `+`, then one or more ASCII digits whose value
/// fits in 32 bits.
pub open spec fn spec_parse_u32(s: Seq<char>) -> Option<u32> {
    let d = if s.len() > 0 && s[0] == '+' {
        s.drop_first()
    } else {
        s
    };
    if d.len() > 0 && all_digits(d) && digits_value(d) <= u32::MAX {
        Some(digits_value(d) as u32)
    } else {
        None
    }
}

/// A longer run of digits is worth at least as much as its prefix.
pub proof fn lemma_digits_value_prefix(s: Seq<char>, i: int)
    requires
        all_digits(s),
        0 <= i <= s.len(),
    ensures
        digits_value(s.take(i)) <= digits_value(s),
    decreases s.len(),
{
    if i < s.len() {
        let t = s.drop_last();
        assert(all_digits(t)) by {
            assert forall|k: int| 0 <= k < t.len() implies #[trigger] is_ascii_digit(t[k]) by {
                assert(t[k] == s[k]);
            }
        }
        lemma_digits_value_prefix(t, i);
        assert(t.take(i) =~= s.take(i));
    } else {
        assert(s.take(i) =~= s);
    }
}

/// Parses a decimal `u32` as `str::parse::<u32>` does.
pub fn parse_u32(cs: &Vec<char>) -> (r: Option<u32>)
    ensures
        r == spec_parse_u32(cs@),
{
    let n = cs.len();
    let mut start: usize = 0;
    if n > 0 && cs[0] == '+' {
        start = 1;
    }
    let ghost d = if cs@.len() > 0 && cs@[0] == '+' {
        cs@.drop_first()
    } else {
        cs@
    };
    assert(d =~= cs@.skip(start as int));
    if start == n {
        return None;
    }
    let mut acc: u64 = 0;
    let mut i: usize = start;
    assert(d.take(0) =~= Seq::<char>::empty());
    while i < n
        invariant
            start <= i <= n,
            n == cs@.len(),
            d =~= cs@.skip(start as int),
            d == (if cs@.len() > 0 && cs@[0] == '+' {
                cs@.drop_first()
            } else {
                cs@
            }),
            d.len() > 0,
            acc == digits_value(d.take(i - start)),
            acc <= u32::MAX,
            all_digits(d.take(i - start)),
        decreases n - i,
    {
        let c = cs[i];
        let ghost k: int = i - start;
        assert(d[k] == c);
        if !(c >= '0' && c <= '9') {
            assert(!is_ascii_digit(d[k]));
            return None;
        }
        let dv: u64 = ((c as u32) - 48) as u64;
        assert(d.take(k + 1).drop_last() =~= d.take(k));
        acc = acc * 10 + dv;
        assert(all_digits(d.take(k + 1))) by {
            assert forall|j: int| 0 <= j < k + 1 implies #[trigger] is_ascii_digit(d.take(k + 1)[j]) by {
                if j < k {
                    assert(d.take(k + 1)[j] == d.take(k)[j]);
                }
            }
        }
        if acc > 4294967295u64 {
            proof {
                if all_digits(d) {
                    lemma_digits_value_prefix(d, k + 1);
                }
            }
            return None;
        }
        i = i + 1;
    }
    assert(d.take(n - start) =~= d);
    Some(acc as u32)
}

/// The text `String::from_utf8_lossy` makes of `bytes`: invalid sequences become U+FFFD.
pub uninterp spec fn spec_utf8_lossy(bytes: Seq<u8>) -> Seq<char>;

/// Calls `String::from_utf8_lossy`. Valid UTF-8 comes back as the text it encodes; what the
/// replacement of invalid sequences gives is only named here.
#[verifier::external_body]
pub fn utf8_lossy(bytes: &[u8]) -> (s: String)
    ensures
        s@ == spec_utf8_lossy(bytes@),
        vstd::utf8::valid_utf8(bytes@) ==> s@ == vstd::utf8::decode_utf8(bytes@),
{
    String::from_utf8_lossy(bytes).into_owned()
}

/// `s` without the copies of `c` at either end (`str::trim_matches` with one character).
pub fn trim_char(s: &Vec<char>, c: char) -> (out: Vec<char>)
    ensures
        out@ == trim_by(s@, |x: char| x == c),
{
    let ghost f = |x: char| x == c;
    assert(forall|x: char| #[trigger] f(x) == (x == c));
    let n = s.len();
    let mut a: usize = 0;
    while a < n && s[a] == c
        invariant
            a <= n,
            n == s@.len(),
            forall|k: int| 0 <= k < a ==> s@[k] == c,
        decreases n - a,
    {
        a = a + 1;
    }
    proof {
        lemma_lead_count_is(s@, f, a as int);
    }
    if a == n {
        return Vec::new();
    }
    let mut b: usize = n;
    while b > a && s[b - 1] == c
        invariant
            a < n,
            a <= b <= n,
            n == s@.len(),
            forall|k: int| b <= k < n ==> s@[k] == c,
            s@[a as int] != c,
        decreases b,
    {
        b = b - 1;
    }
    proof {
        lemma_trail_count_is(s@, f, n - b);
    }
    sub_chars(s, a, b)
}

/// `p` is a prefix of `s`.
pub open spec fn has_prefix(s: Seq<char>, p: Seq<char>) -> bool {
    p.len() <= s.len() && s.take(p.len() as int) == p
}

/// The rest of `s` after the prefix `p`, when `s` starts with `p` (`str::strip_prefix`).
pub fn strip_prefix(s: &Vec<char>, p: &Vec<char>) -> (r: Option<Vec<char>>)
    ensures
        r is Some <==> has_prefix(s@, p@),
        r matches Some(t) ==> t@ == s@.skip(p@.len() as int),
{
    if matches_at(s, p, 0) {
        assert(s@.subrange(0, p@.len() as int) =~= s@.take(p@.len() as int));
        Some(sub_chars(s, p.len(), s.len()))
    } else {
        assert(!has_prefix(s@, p@) || occurs_at(s@, p@, 0)) by {
            if has_prefix(s@, p@) {
                assert(s@.subrange(0, p@.len() as int) =~= s@.take(p@.len() as int));
            }
        }
        None
    }
}

/// The pieces joined with `sep` between them (`[String]::join`).
pub open spec fn join_with(parts: Seq<Seq<char>>, sep: Seq<char>) -> Seq<char>
    decreases parts.len(),
{
    if parts.len() == 0 {
        Seq::empty()
    } else if parts.len() == 1 {
        parts[0]
    } else {
        join_with(parts.drop_last(), sep) + sep + parts.last()
    }
}

/// Joins the first `count` strings of `parts` with `sep` between them.
pub fn join_strings(parts: &[String], count: usize, sep: &str) -> (out: Vec<char>)
    requires
        count <= parts@.len(),
    ensures
        out@ == join_with(parts@.take(count as int).map_values(|p: String| p@), sep@),
{
    let mut out: Vec<char> = Vec::new();
    let mut i: usize = 0;
    assert(parts@.take(0).map_values(|p: String| p@) =~= Seq::<Seq<char>>::empty());
    while i < count
        invariant
            i <= count,
            count <= parts@.len(),
            out@ == join_with(parts@.take(i as int).map_values(|p: String| p@), sep@),
        decreases count - i,
    {
        let ghost before = parts@.take(i as int).map_values(|p: String| p@);
        let ghost after = parts@.take(i + 1).map_values(|p: String| p@);
        assert(after.drop_last() =~= before);
        assert(after.last() == parts@[i as int]@);
        if i > 0 {
            push_str(&mut out, sep);
        }
        push_str(&mut out, parts[i].as_str());
        proof {
            if i == 0 {
                assert(out@ =~= after[0]);
            }
        }
        i = i + 1;
    }
    out
}

/// The ASCII digit for `d`, which is below ten.
pub open spec fn digit_char(d: nat) -> char {
    ((48 + d) as u8) as char
}

/// The decimal numeral of `n`, most significant digit first, with no leading zeros.
pub open spec fn dec_string(n: nat) -> Seq<char>
    decreases n,
{
    if n < 10 {
        seq![digit_char(n)]
    } else {
        dec_string(n / 10).push(digit_char(n % 10))
    }
}

/// The decimal numeral of a signed number: a minus sign before the magnitude of a negative one.
pub open spec fn signed_dec_string(n: int) -> Seq<char> {
    if n < 0 {
        seq!['-'] + dec_string((-n) as nat)
    } else {
        dec_string(n as nat)
    }
}

/// Appends the decimal numeral of `n` to `out`.
pub fn push_dec(out: &mut Vec<char>, n: u64)
    ensures
        final(out)@ == old(out)@ + dec_string(n as nat),
    decreases n,
{
    if n >= 10 {
        push_dec(out, n / 10);
    }
    let d: u8 = (n % 10) as u8;
    out.push((48u8 + d) as char);
    assert(old(out)@ + dec_string(n as nat) =~= final(out)@) by {
        if n >= 10 {
            assert(dec_string(n as nat) == dec_string((n / 10) as nat).push(digit_char((n % 10) as nat)));
        }
    }
}

/// Appends the decimal numeral of the signed `n` to `out`.
pub fn push_signed_dec(out: &mut Vec<char>, n: i64)
    ensures
        final(out)@ == old(out)@ + signed_dec_string(n as int),
{
    if n < 0 {
        out.push('-');
        let m: u64 = (0i128 - (n as i128)) as u64;
        push_dec(out, m);
        assert(final(out)@ =~= old(out)@ + signed_dec_string(n as int));
    } else {
        push_dec(out, n as u64);
    }
}

} // verus!
