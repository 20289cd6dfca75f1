//! Names for copies saved out of the cache: an existing name gets " (n)" before its
//! extension instead of being overwritten.
use crate::text::{chars_of, dec_string, push_chars, push_dec, push_str, string_from_chars, sub_chars};
use vstd::prelude::*;

verus! {

/// The position of the last '.' in `s`, or -1.
pub open spec fn last_dot(s: Seq<char>) -> int
    decreases s.len(),
{
    if s.len() == 0 {
        -1
    } else if s.last() == '.' {
        s.len() - 1
    } else {
        last_dot(s.drop_last())
    }
}

/// A file name's stem and extension as `Path::file_stem` and `Path::extension` give them: a
/// name without a dot, or whose only dot leads, is all stem; otherwise the extension follows
/// the last dot (and may be empty).
pub open spec fn stem_and_ext(name: Seq<char>) -> (Seq<char>, Seq<char>) {
    let d = last_dot(name);
    if d <= 0 {
        (name, Seq::empty())
    } else {
        (name.take(d), name.skip(d + 1))
    }
}

/// The `n`-th alternative name: "stem (n).ext", or "stem (n)" without an extension.
pub open spec fn spec_numbered_name(name: Seq<char>, n: nat) -> Seq<char> {
    let (stem, ext) = stem_and_ext(name);
    if ext.len() == 0 {
        stem + " ("@ + dec_string(n) + ")"@
    } else {
        stem + " ("@ + dec_string(n) + ")."@ + ext
    }
}

/// Builds the `n`-th alternative name for a file name that is taken.
pub fn numbered_name(name: &str, n: u32) -> (r: String)
    ensures
        r@ == spec_numbered_name(name@, n as nat),
{
    let cs = chars_of(name);
    let len = cs.len();
    let mut k: usize = len;
    assert(cs@.take(len as int) =~= cs@);
    while k > 0 && cs[k - 1] != '.'
        invariant
            k <= len,
            len == cs@.len(),
            last_dot(cs@) == last_dot(cs@.take(k as int)),
        decreases k,
    {
        assert(cs@.take(k as int).drop_last() =~= cs@.take(k - 1));
        k = k - 1;
    }
    proof {
        if k > 0 {
            assert(cs@.take(k as int).last() == '.');
        } else {
            assert(cs@.take(0) =~= Seq::<char>::empty());
        }
    }
    let ghost d = last_dot(cs@);
    assert(d == k - 1);
    let (stem, ext) = if k <= 1 {
        (sub_chars(&cs, 0, len), Vec::new())
    } else {
        (sub_chars(&cs, 0, k - 1), sub_chars(&cs, k, len))
    };
    proof {
        if k <= 1 {
            assert(stem@ =~= name@);
        } else {
            assert(stem@ =~= name@.take(d));
            assert(ext@ =~= name@.skip(d + 1));
        }
    }
    let mut out: Vec<char> = Vec::new();
    push_chars(&mut out, &stem);
    push_str(&mut out, " (");
    push_dec(&mut out, n as u64);
    if ext.len() == 0 {
        push_str(&mut out, ")");
    } else {
        push_str(&mut out, ").");
        push_chars(&mut out, &ext);
    }
    string_from_chars(out)
}

} // verus!
