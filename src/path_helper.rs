//! Paths as plain text: joining a relative path onto a base, taking the base off again, and
//! rewriting separators to the local convention.
use vstd::prelude::*;

use crate::text::{chars_of, has_prefix, push_all, slice_chars, starts_with_at, string_of};

verus! {

/// `rel` appended to `base`, with one separator between them.
pub open spec fn join_spec(base: Seq<char>, rel: Seq<char>, sep: char) -> Seq<char> {
    if base.len() == 0 {
        rel
    } else if base.last() == sep {
        base + rel
    } else {
        base.push(sep) + rel
    }
}

/// The part of `full` below `base`, if `full` is `base` itself or lies under it.
pub open spec fn strip_base_spec(base: Seq<char>, full: Seq<char>, sep: char) -> Option<
    Seq<char>,
> {
    if base.len() == 0 {
        Some(full)
    } else if base.last() == sep {
        if has_prefix(full, base) {
            Some(full.skip(base.len() as int))
        } else {
            None
        }
    } else if has_prefix(full, base.push(sep)) {
        Some(full.skip(base.len() + 1int))
    } else if full == base {
        Some(Seq::<char>::empty())
    } else {
        None
    }
}

/// The separator of the other platform convention.
pub open spec fn foreign_sep(sep: char) -> char {
    if sep == '/' {
        '\\'
    } else {
        '/'
    }
}

/// `s` with every separator of the other convention replaced by `sep`.
pub open spec fn normalize_spec(s: Seq<char>, sep: char) -> Seq<char> {
    Seq::new(s.len(), |i: int| if s[i] == foreign_sep(sep) { sep } else { s[i] })
}

pub fn join_chars(base: &Vec<char>, rel: &Vec<char>, sep: char) -> (r: Vec<char>)
    ensures
        r@ == join_spec(base@, rel@, sep),
{
    let mut out: Vec<char> = Vec::new();
    push_all(&mut out, base);
    if base.len() > 0 && base[base.len() - 1] != sep {
        out.push(sep);
    }
    push_all(&mut out, rel);
    out
}

/// Joins a relative path onto a base directory with the separator `sep`.
pub fn join_paths(base_path: &str, relative_path: &str, sep: char) -> (r: String)
    ensures
        r@ == join_spec(base_path@, relative_path@, sep),
{
    let b = chars_of(base_path);
    let rel = chars_of(relative_path);
    let j = join_chars(&b, &rel, sep);
    string_of(&j)
}

pub fn strip_base_chars(base: &Vec<char>, full: &Vec<char>, sep: char) -> (r: Option<Vec<char>>)
    ensures
        r matches Some(v) ==> strip_base_spec(base@, full@, sep) == Some(v@),
        r is None ==> strip_base_spec(base@, full@, sep) is None,
{
    let n = full.len();
    assert(full@.subrange(0, n as int) =~= full@);
    if base.len() == 0 {
        return Some(slice_chars(full, 0, n));
    }
    if !starts_with_at(full, 0, n, base) {
        if base[base.len() - 1] != sep {
            assert(!has_prefix(full@, base@.push(sep))) by {
                if has_prefix(full@, base@.push(sep)) {
                    assert(full@.subrange(0, base@.len() as int) =~= base@);
                }
            }
            assert(full@ != base@) by {
                if full@ == base@ {
                    assert(full@.subrange(0, base@.len() as int) =~= base@);
                }
            }
        }
        return None;
    }
    let k = base.len();
    if base[k - 1] == sep {
        return Some(slice_chars(full, k, n));
    }
    if k == n {
        assert(full@ =~= base@);
        assert(!has_prefix(full@, base@.push(sep)));
        return Some(Vec::new());
    }
    if full[k] == sep {
        assert(full@.subrange(0, k + 1) =~= base@.push(sep));
        Some(slice_chars(full, k + 1, n))
    } else {
        assert(!has_prefix(full@, base@.push(sep))) by {
            if has_prefix(full@, base@.push(sep)) {
                assert(full@.subrange(0, k + 1)[k as int] == full@[k as int]);
            }
        }
        assert(full@ != base@);
        None
    }
}

/// The part of `full_path` below `base_dir`, or `None` when it does not lie under it.
pub fn remove_base_path(base_dir: &str, full_path: &str, sep: char) -> (r: Option<String>)
    ensures
        r matches Some(v) ==> strip_base_spec(base_dir@, full_path@, sep) == Some(v@),
        r is None ==> strip_base_spec(base_dir@, full_path@, sep) is None,
{
    let b = chars_of(base_dir);
    let f = chars_of(full_path);
    match strip_base_chars(&b, &f, sep) {
        Some(v) => Some(string_of(&v)),
        None => None,
    }
}

/// Copies `s[lo..hi)` with separators rewritten to `sep`.
pub fn normalize_separators(s: &Vec<char>, lo: usize, hi: usize, sep: char) -> (r: Vec<char>)
    requires
        lo <= hi <= s@.len(),
    ensures
        r@ == normalize_spec(s@.subrange(lo as int, hi as int), sep),
{
    let other = if sep == '/' {
        '\\'
    } else {
        '/'
    };
    let mut out: Vec<char> = Vec::new();
    let mut i: usize = lo;
    while i < hi
        invariant
            lo <= i <= hi <= s@.len(),
            other == foreign_sep(sep),
            out@.len() == i - lo,
            forall|k: int|
                0 <= k < i - lo ==> out@[k] == (if s@[lo + k] == other {
                    sep
                } else {
                    s@[lo + k]
                }),
        decreases hi - i,
    {
        if s[i] == other {
            out.push(sep);
        } else {
            out.push(s[i]);
        }
        i = i + 1;
    }
    assert(out@ =~= normalize_spec(s@.subrange(lo as int, hi as int), sep));
    out
}

/// A path below `base` survives taking the base off and joining it on again.
pub proof fn lemma_join_strip(base: Seq<char>, full: Seq<char>, sep: char)
    requires
        strip_base_spec(base, full, sep) matches Some(rel) && rel.len() > 0,
    ensures
        join_spec(base, strip_base_spec(base, full, sep)->0, sep) == full,
{
    let rel = strip_base_spec(base, full, sep)->0;
    if base.len() == 0 {
    } else if base.last() == sep {
        assert(base + rel =~= full) by {
            assert(full.subrange(0, base.len() as int) == base);
        }
    } else {
        assert(base.push(sep) + rel =~= full) by {
            assert(full.subrange(0, base.len() + 1int) == base.push(sep));
        }
    }
}

} // verus!
