//! Small verified helpers on text, stated over `Seq<char>` views.

use vstd::prelude::*;
use vstd::string::StringExecFns;

verus! {

/// The characters of `s`, in order.
pub fn chars_of(s: &str) -> (v: Vec<char>)
    ensures
        v@ == s@,
{
    let mut v: Vec<char> = Vec::new();
    for c in it: s.chars()
        invariant
            v@ == it.seq().take(it.index() as int),
            it.seq() == s@,
    {
        v.push(c);
    }
    v
}

/// Whether two texts hold the same characters.
pub fn same_text(a: &str, b: &str) -> (r: bool)
    ensures
        r == (a@ == b@),
{
    let x = a.to_owned();
    let y = b.to_owned();
    x == y
}

/// `a` followed by `b`.
pub fn joined(a: &str, b: &str) -> (r: String)
    ensures
        r@ == a@ + b@,
{
    let x = a.to_owned();
    x.concat(b)
}

/// `a`, then `b`, then `c`.
pub fn joined3(a: &str, b: &str, c: &str) -> (r: String)
    ensures
        r@ == a@ + b@ + c@,
{
    let x = a.to_owned();
    x.concat(b).concat(c)
}

/// The views of the items of a sequence, in order.
pub open spec fn views<T: View>(items: Seq<T>) -> Seq<T::V> {
    items.map_values(|item: T| item@)
}

/// Whether `needle` occurs in `items`.
pub fn contains_text(items: &Vec<String>, needle: &str) -> (r: bool)
    ensures
        r == views(items@).contains(needle@),
{
    let key = needle.to_owned();
    let mut i: usize = 0;
    while i < items.len()
        invariant
            i <= items.len(),
            key@ == needle@,
            forall|j: int| 0 <= j < i ==> views(items@)[j] != needle@,
        decreases items.len() - i,
    {
        if items[i] == key {
            assert(views(items@)[i as int] == needle@);
            return true;
        }
        i += 1;
    }
    false
}

} // verus!
