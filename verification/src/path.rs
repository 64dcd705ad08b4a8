//! Paths as text, with `/` between components.
//!
//! The library never touches the file system: it computes the paths that its
//! caller examines, and the caller hands back what it found there.

use vstd::prelude::*;
use vstd::string::StrSliceExecFns;
use crate::text::chars_of;
use crate::text::joined;
use crate::text::joined3;

verus! {

/// `leaf` appended to `base` as one more component. An absolute `leaf`
/// replaces `base`.
pub open spec fn path_join(base: Seq<char>, leaf: Seq<char>) -> Seq<char> {
    if leaf.len() > 0 && leaf[0] == '/' {
        leaf
    } else if base.len() == 0 || base.last() == '/' {
        base + leaf
    } else {
        base + seq!['/'] + leaf
    }
}

/// `path` without the separators that end it. A path of separators only
/// keeps its first one, which names the root.
pub open spec fn trim_separators(path: Seq<char>) -> Seq<char>
    decreases path.len(),
{
    if path.len() > 1 && path.last() == '/' {
        trim_separators(path.drop_last())
    } else {
        path
    }
}

/// The position of the last separator in `path`, if it has one.
pub open spec fn last_separator(path: Seq<char>) -> Option<int>
    decreases path.len(),
{
    if path.len() == 0 {
        None
    } else if path.last() == '/' {
        Some(path.len() - 1)
    } else {
        last_separator(path.drop_last())
    }
}

/// The directory that holds `path`: `path` without its last component.
/// The root and the empty path have none; a single relative component has
/// the empty path.
pub open spec fn path_parent(path: Seq<char>) -> Option<Seq<char>> {
    let trimmed = trim_separators(path);
    if trimmed.len() == 0 || trimmed == seq!['/'] {
        None
    } else {
        match last_separator(trimmed) {
            None => Some(Seq::empty()),
            Some(k) => Some(trim_separators(trimmed.take(k + 1))),
        }
    }
}

/// Trimming never lengthens a path, and yields a prefix of it.
pub proof fn lemma_trim_is_prefix(path: Seq<char>)
    ensures
        trim_separators(path).len() <= path.len(),
        trim_separators(path) == path.take(trim_separators(path).len() as int),
        path.len() > 0 ==> trim_separators(path).len() > 0,
        trim_separators(path).len() > 1 ==> trim_separators(path).last() != '/',
    decreases path.len(),
{
    if path.len() > 1 && path.last() == '/' {
        lemma_trim_is_prefix(path.drop_last());
        let inner = trim_separators(path.drop_last());
        assert(path.drop_last().take(inner.len() as int) == path.take(inner.len() as int));
    } else {
        assert(path.take(path.len() as int) == path);
    }
}

/// The last separator, where there is one, lies inside the path.
pub proof fn lemma_last_separator_bounds(path: Seq<char>)
    ensures
        match last_separator(path) {
            Some(k) => 0 <= k < path.len() && path[k] == '/',
            None => forall|i: int| 0 <= i < path.len() ==> path[i] != '/',
        },
    decreases path.len(),
{
    if path.len() > 0 && path.last() != '/' {
        lemma_last_separator_bounds(path.drop_last());
        if last_separator(path) is None {
            assert forall|i: int| 0 <= i < path.len() implies path[i] != '/' by {
                if i < path.len() - 1 {
                    assert(path.drop_last()[i] == path[i]);
                }
            }
        }
    }
}

/// A parent is a proper prefix of its path, so walking upward ends.
pub proof fn lemma_parent_is_shorter(path: Seq<char>)
    ensures
        match path_parent(path) {
            Some(p) => p.len() < path.len() && p == path.take(p.len() as int),
            None => true,
        },
{
    let trimmed = trim_separators(path);
    lemma_trim_is_prefix(path);
    if trimmed.len() == 0 || trimmed == seq!['/'] {
    } else {
        lemma_last_separator_bounds(trimmed);
        match last_separator(trimmed) {
            None => {
                assert(path.take(0) == Seq::<char>::empty());
            },
            Some(k) => {
                let head = trimmed.take(k + 1);
                lemma_trim_is_prefix(head);
                let p = trim_separators(head);
                if k + 1 == trimmed.len() {
                    assert(trimmed.last() == '/');
                    assert(trimmed.len() == 1);
                    assert(trimmed == seq!['/']);
                }
                assert(p == head.take(p.len() as int));
                assert(head.take(p.len() as int) == trimmed.take(p.len() as int));
                assert(trimmed.take(p.len() as int) == path.take(p.len() as int));
            },
        }
    }
}

/// Joins `leaf` to `base`.
pub fn join_path(base: &str, leaf: &str) -> (r: String)
    ensures
        r@ == path_join(base@, leaf@),
{
    proof {
        reveal_strlit("/");
    }
    let leaf_len = leaf.unicode_len();
    if leaf_len > 0 && leaf.get_char(0) == '/' {
        return leaf.to_owned();
    }
    let base_len = base.unicode_len();
    if base_len == 0 || base.get_char(base_len - 1) == '/' {
        joined(base, leaf)
    } else {
        assert("/"@ == seq!['/']);
        joined3(base, "/", leaf)
    }
}

/// The length of `chars[..n]` once its trailing separators are dropped.
fn trimmed_length(chars: &Vec<char>, n: usize) -> (m: usize)
    requires
        n <= chars.len(),
    ensures
        m <= n,
        trim_separators(chars@.take(n as int)) == chars@.take(m as int),
{
    let mut m = n;
    while m > 1 && chars[m - 1] == '/'
        invariant
            m <= n,
            n <= chars.len(),
            trim_separators(chars@.take(n as int)) == trim_separators(chars@.take(m as int)),
        decreases m,
    {
        assert(chars@.take(m as int).drop_last() == chars@.take(m as int - 1));
        m -= 1;
    }
    m
}

/// The directory that holds `path`, if it has one.
pub fn parent_dir(path: &str) -> (r: Option<String>)
    ensures
        match r {
            Some(p) => path_parent(path@) == Some(p@),
            None => path_parent(path@) is None,
        },
{
    let chars = chars_of(path);
    assert(chars@.take(chars.len() as int) == chars@);
    let n = trimmed_length(&chars, chars.len());
    let ghost trimmed = chars@.take(n as int);
    if n == 0 || (n == 1 && chars[0] == '/') {
        assert(n == 1 ==> trimmed == seq!['/']);
        return None;
    }
    assert(trimmed != seq!['/']) by {
        if n == 1 {
            assert(trimmed[0] == chars@[0]);
        } else {
            assert(trimmed.len() == n);
        }
    }
    let mut k = n;
    while k > 0 && chars[k - 1] != '/'
        invariant
            k <= n,
            n <= chars.len(),
            trimmed == chars@.take(n as int),
            last_separator(trimmed) == last_separator(chars@.take(k as int)),
        decreases k,
    {
        assert(chars@.take(k as int).drop_last() == chars@.take(k as int - 1));
        k -= 1;
    }
    if k == 0 {
        return Some(String::new());
    }
    assert(last_separator(trimmed) == Some(k as int - 1));
    assert(trimmed.take(k as int) == chars@.take(k as int));
    let end = trimmed_length(&chars, k);
    let parent = path.substring_char(0, end);
    assert(chars@.take(end as int) == path@.subrange(0, end as int));
    Some(parent.to_owned())
}

/// Where the extension of a file name begins: behind its last dot, unless
/// that dot opens the name or the name is `..`.
pub open spec fn extension_start(name: Seq<char>) -> Option<int> {
    if name == seq!['.', '.'] {
        None
    } else {
        match last_dot(name) {
            Some(k) if k > 0 => Some(k + 1),
            _ => None,
        }
    }
}

/// The position of the last dot in `name`, if it has one.
pub open spec fn last_dot(name: Seq<char>) -> Option<int>
    decreases name.len(),
{
    if name.len() == 0 {
        None
    } else if name.last() == '.' {
        Some(name.len() - 1)
    } else {
        last_dot(name.drop_last())
    }
}

/// The extension of a file name, without its dot.
pub open spec fn file_extension(name: Seq<char>) -> Option<Seq<char>> {
    match extension_start(name) {
        Some(k) => Some(name.skip(k)),
        None => None,
    }
}

/// A file name without its extension.
pub open spec fn file_stem(name: Seq<char>) -> Seq<char> {
    match extension_start(name) {
        Some(k) => name.take(k - 1),
        None => name,
    }
}

/// Splits a file name into its stem and its extension.
pub fn split_extension(name: &str) -> (r: (String, Option<String>))
    ensures
        r.0@ == file_stem(name@),
        match r.1 {
            Some(ext) => file_extension(name@) == Some(ext@),
            None => file_extension(name@) is None,
        },
{
    let chars = chars_of(name);
    let n = chars.len();
    assert(chars@.take(n as int) == chars@);
    if n == 2 && chars[0] == '.' && chars[1] == '.' {
        assert(name@ == seq!['.', '.']);
        return (name.to_owned(), None);
    }
    assert(name@ != seq!['.', '.']) by {
        if name@ == seq!['.', '.'] {
            assert(name@.len() == 2);
            assert(name@[0] == '.' && name@[1] == '.');
        }
    }
    let mut k = n;
    while k > 0 && chars[k - 1] != '.'
        invariant
            k <= n,
            n == chars.len(),
            last_dot(chars@) == last_dot(chars@.take(k as int)),
        decreases k,
    {
        assert(chars@.take(k as int).drop_last() == chars@.take(k as int - 1));
        k -= 1;
    }
    if k <= 1 {
        return (name.to_owned(), None);
    }
    assert(last_dot(name@) == Some(k as int - 1));
    let stem = name.substring_char(0, k - 1);
    let ext = name.substring_char(k, n);
    assert(name@.subrange(0, k as int - 1) == name@.take(k as int - 1));
    assert(name@.subrange(k as int, n as int) == name@.skip(k as int));
    (stem.to_owned(), Some(ext.to_owned()))
}

} // verus!
