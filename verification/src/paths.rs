//! Slash-delimited path strings: splitting at the first or last separator,
//! joining components, and recognizing directory-designating entries.
//!
//! A path is a sequence of characters in which `'/'` separates segments. The
//! spec functions here are the vocabulary every contract in this crate uses to
//! talk about raw library-path entries and generated file paths.

use vstd::prelude::*;

verus! {

/// Index of the first `'/'` in `s`, or `s.len()` if `s` has none.
pub open spec fn first_slash(s: Seq<char>) -> int
    decreases s.len(),
{
    if s.len() == 0 {
        0
    } else if s[0] == '/' {
        0
    } else {
        1 + first_slash(s.skip(1))
    }
}

/// Whether `s` contains a `'/'`.
pub open spec fn has_slash(s: Seq<char>) -> bool {
    first_slash(s) < s.len()
}

/// The root segment of a raw entry: everything before the first `'/'`,
/// or the whole string when no `'/'` is present.
pub open spec fn root_of(s: Seq<char>) -> Seq<char> {
    s.take(first_slash(s))
}

/// The suffix of a raw entry: everything after the first `'/'`,
/// or the empty string when no `'/'` is present.
pub open spec fn suffix_of(s: Seq<char>) -> Seq<char> {
    if has_slash(s) {
        s.skip(first_slash(s) + 1)
    } else {
        Seq::empty()
    }
}

/// `first_slash` is the least index holding `'/'`, and `s.len()` if none does.
pub proof fn lemma_first_slash(s: Seq<char>)
    ensures
        0 <= first_slash(s) <= s.len(),
        forall|j: int| 0 <= j < first_slash(s) ==> s[j] != '/',
        first_slash(s) < s.len() ==> s[first_slash(s)] == '/',
    decreases s.len(),
{
    if s.len() == 0 {
    } else if s[0] == '/' {
    } else {
        lemma_first_slash(s.skip(1));
        assert forall|j: int| 0 <= j < first_slash(s) implies s[j] != '/' by {
            if j > 0 {
                assert(s.skip(1)[j - 1] == s[j]);
            }
        }
        if first_slash(s) < s.len() {
            assert(s.skip(1)[first_slash(s) - 1] == s[first_slash(s)]);
        }
    }
}

/// A scan that saw no `'/'` before `i`, and one at `i` unless `i == s.len()`,
/// has found exactly `first_slash(s)`.
pub proof fn lemma_first_slash_at(s: Seq<char>, i: int)
    requires
        0 <= i <= s.len(),
        forall|j: int| 0 <= j < i ==> s[j] != '/',
        i < s.len() ==> s[i] == '/',
    ensures
        first_slash(s) == i,
    decreases s.len(),
{
    if s.len() == 0 {
    } else if s[0] == '/' {
        assert(i == 0);
    } else {
        assert(i != 0);
        assert forall|j: int| 0 <= j < i - 1 implies s.skip(1)[j] != '/' by {
            assert(s.skip(1)[j] == s[j + 1]);
        }
        if i - 1 < s.skip(1).len() {
            assert(s.skip(1)[i - 1] == s[i]);
        }
        lemma_first_slash_at(s.skip(1), i - 1);
    }
}

/// Splits a raw entry into its root segment and its suffix.
pub fn split_first_slash(s: &str) -> (r: (String, String))
    ensures
        r.0@ == root_of(s@),
        r.1@ == suffix_of(s@),
{
    let n = s.unicode_len();
    let mut i: usize = 0;
    while i < n
        invariant
            n == s@.len(),
            0 <= i <= n,
            forall|j: int| 0 <= j < i ==> s@[j] != '/',
        decreases n - i,
    {
        if s.get_char(i) == '/' {
            proof {
                lemma_first_slash_at(s@, i as int);
            }
            let root = s.substring_char(0, i);
            let suf = s.substring_char(i + 1, n);
            return (root.to_owned(), suf.to_owned());
        }
        i += 1;
    }
    proof {
        lemma_first_slash_at(s@, n as int);
        assert(root_of(s@) =~= s@);
    }
    (s.to_owned(), String::new())
}

/// Index of the last `'/'` in `s`, or `-1` if `s` has none.
pub open spec fn last_slash(s: Seq<char>) -> int
    decreases s.len(),
{
    if s.len() == 0 {
        -1
    } else if s[s.len() - 1] == '/' {
        s.len() - 1
    } else {
        last_slash(s.drop_last())
    }
}

/// The final segment of a path: everything after the last `'/'`,
/// or the whole string when no `'/'` is present.
pub open spec fn last_segment_of(s: Seq<char>) -> Seq<char> {
    s.skip(last_slash(s) + 1)
}

/// The leading directory part of a path: everything before the last `'/'`,
/// or the empty string when no `'/'` is present.
pub open spec fn dir_prefix_of(s: Seq<char>) -> Seq<char> {
    if last_slash(s) >= 0 {
        s.take(last_slash(s))
    } else {
        Seq::empty()
    }
}

/// A scan that saw no `'/'` at or after `i + 1`, and one at `i` unless
/// `i == -1`, has found exactly `last_slash(s)`.
pub proof fn lemma_last_slash_at(s: Seq<char>, i: int)
    requires
        -1 <= i < s.len(),
        forall|j: int| i < j < s.len() ==> s[j] != '/',
        i >= 0 ==> s[i] == '/',
    ensures
        last_slash(s) == i,
    decreases s.len(),
{
    if s.len() == 0 {
    } else if s[s.len() - 1] == '/' {
        assert(i == s.len() - 1);
    } else {
        assert(i < s.len() - 1);
        assert forall|j: int| i < j < s.drop_last().len() implies s.drop_last()[j] != '/' by {
            assert(s.drop_last()[j] == s[j]);
        }
        lemma_last_slash_at(s.drop_last(), i);
    }
}

/// Splits a path at its last `'/'` into a leading directory part and a final
/// segment; `None` when the path has no `'/'` at all.
pub fn split_last_slash(s: &str) -> (r: Option<(String, String)>)
    ensures
        match r {
            Some(p) => {
                &&& last_slash(s@) >= 0
                &&& p.0@ == dir_prefix_of(s@)
                &&& p.1@ == last_segment_of(s@)
            },
            None => {
                &&& last_slash(s@) == -1
                &&& last_segment_of(s@) == s@
            },
        },
{
    let n = s.unicode_len();
    let mut i: usize = n;
    while i > 0
        invariant
            n == s@.len(),
            0 <= i <= n,
            forall|j: int| i <= j < n ==> s@[j] != '/',
        decreases i,
    {
        if s.get_char(i - 1) == '/' {
            proof {
                lemma_last_slash_at(s@, i - 1);
            }
            let pre = s.substring_char(0, i - 1);
            let seg = s.substring_char(i, n);
            return Some((pre.to_owned(), seg.to_owned()));
        }
        i -= 1;
    }
    proof {
        lemma_last_slash_at(s@, -1);
        assert(last_segment_of(s@) =~= s@);
    }
    None
}

/// `a` and `b` joined by a single `'/'`.
pub open spec fn join_spec(a: Seq<char>, b: Seq<char>) -> Seq<char> {
    a + "/"@ + b
}

/// Joins two path components with a `'/'` separator.
pub fn join(a: &str, b: &str) -> (r: String)
    ensures
        r@ == join_spec(a@, b@),
{
    let mut r = a.to_owned();
    r.append("/");
    r.append(b);
    proof {
        assert(r@ =~= join_spec(a@, b@));
    }
    r
}

/// The views of a sequence of strings, as sequences of characters.
pub open spec fn str_views(v: Seq<String>) -> Seq<Seq<char>> {
    v.map_values(|s: String| s@)
}

/// Viewing a sequence of strings commutes with pushing one more.
pub proof fn lemma_str_views_push(v: Seq<String>, x: String)
    ensures
        str_views(v.push(x)) =~= str_views(v).push(x@),
{
    assert forall|i: int| 0 <= i < v.len() + 1 implies str_views(v.push(x))[i] == str_views(
        v,
    ).push(x@)[i] by {
        if i < v.len() {
            assert(v.push(x)[i] == v[i]);
        }
    }
}

/// Whether an entry designates a directory: it is non-empty and its final
/// character is `'/'`.
pub open spec fn is_dir_entry(s: Seq<char>) -> bool {
    s.len() > 0 && s[s.len() - 1] == '/'
}

/// Tests whether an entry ends in `'/'`, marking it as a directory.
pub fn ends_with_slash(s: &str) -> (r: bool)
    ensures
        r == is_dir_entry(s@),
{
    let n = s.unicode_len();
    n > 0 && s.get_char(n - 1) == '/'
}

} // verus!
