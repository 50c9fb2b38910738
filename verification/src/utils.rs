//! Helpers on paths and character sequences.
//!
//! Paths are plain strings whose components are separated by `/`. The base
//! name of a path is what follows its last separator.

use vstd::prelude::*;

verus! {

/// The index at which the base name of `path` begins: just past the last
/// `/`, or 0 where the path holds none.
pub open spec fn name_start(path: Seq<char>) -> int
    decreases path.len(),
{
    if path.len() == 0 || path.last() == '/' {
        path.len() as int
    } else {
        name_start(path.drop_last())
    }
}

/// The base name of `path`: everything after its last `/`.
pub open spec fn base_name(path: Seq<char>) -> Seq<char> {
    path.skip(name_start(path))
}

/// Whether a base name marks a hidden entry: it begins with a dot.
pub open spec fn hidden_name(name: Seq<char>) -> bool {
    name.len() > 0 && name[0] == '.'
}

/// Whether the base name of `path` begins with a dot.
pub open spec fn is_hidden_path(path: Seq<char>) -> bool {
    hidden_name(base_name(path))
}

/// Whether `needle` stands in `hay` at index `i`.
pub open spec fn occurs_at(hay: Seq<char>, needle: Seq<char>, i: int) -> bool {
    &&& 0 <= i
    &&& i + needle.len() <= hay.len()
    &&& hay.subrange(i, i + needle.len()) == needle
}

/// Whether `needle` stands somewhere in `hay`.
pub open spec fn has_substring(hay: Seq<char>, needle: Seq<char>) -> bool {
    exists|i: int| occurs_at(hay, needle, i)
}

/// The base name starts inside the path, holds no separator, and is
/// preceded by one unless it is the whole path.
pub proof fn lemma_name_start(path: Seq<char>)
    ensures
        0 <= name_start(path) <= path.len(),
        forall|i: int| name_start(path) <= i < path.len() ==> path[i] != '/',
        name_start(path) > 0 ==> path[name_start(path) - 1] == '/',
    decreases path.len(),
{
    if path.len() > 0 && path.last() != '/' {
        let front = path.drop_last();
        lemma_name_start(front);
        assert forall|i: int| name_start(path) <= i < path.len() implies path[i] != '/' by {
            if i < front.len() {
                assert(front[i] == path[i]);
            }
        }
    }
}

/// An index that is preceded by a separator (or is 0) and followed by none
/// is where the base name starts.
pub proof fn lemma_name_start_is(path: Seq<char>, k: int)
    requires
        0 <= k <= path.len(),
        forall|i: int| k <= i < path.len() ==> path[i] != '/',
        k > 0 ==> path[k - 1] == '/',
    ensures
        name_start(path) == k,
    decreases path.len(),
{
    if path.len() > 0 && path.last() != '/' {
        lemma_name_start_is(path.drop_last(), k);
    }
}

/// A name without a separator is its own base name, alone or behind a
/// directory and a `/`; so an entry is hidden exactly when its name begins
/// with a dot.
pub proof fn lemma_entry_base_name(dir: Seq<char>, name: Seq<char>)
    requires
        !name.contains('/'),
    ensures
        base_name(name) == name,
        base_name(dir + seq!['/'] + name) == name,
        is_hidden_path(name) == hidden_name(name),
        is_hidden_path(dir + seq!['/'] + name) == hidden_name(name),
{
    lemma_name_start_is(name, 0);
    let full = dir + seq!['/'] + name;
    let k = (dir.len() + 1) as int;
    assert forall|i: int| k <= i < full.len() implies full[i] != '/' by {
        assert(full[i] == name[i - k]);
        assert(name.contains(name[i - k]));
    }
    lemma_name_start_is(full, k);
    assert(full.skip(k) == name);
    assert(name.skip(0) == name);
}

/// The characters of `s`, in order.
pub fn chars_of(s: &str) -> (r: Vec<char>)
    ensures
        r@ == s@,
{
    let mut r: Vec<char> = Vec::new();
    for c in it: s.chars()
        invariant
            it.seq() == s@,
            r@ == s@.take(it.index() as int),
    {
        r.push(c);
    }
    r
}

/// The base name of `path`, as a slice of it.
pub fn base_name_of<'a>(path: &'a str) -> (name: &'a str)
    ensures
        name@ == base_name(path@),
{
    let chars = chars_of(path);
    let mut start: usize = chars.len();
    while start > 0 && chars[start - 1] != '/'
        invariant
            start <= chars.len(),
            forall|i: int| start <= i < chars.len() ==> chars@[i] != '/',
        decreases start,
    {
        start = start - 1;
    }
    proof {
        lemma_name_start_is(path@, start as int);
    }
    path.substring_char(start, chars.len())
}

/// Whether the base name of `path` begins with a dot.
pub fn is_hidden(path: &str) -> (hidden: bool)
    ensures
        hidden == is_hidden_path(path@),
{
    let name = base_name_of(path);
    name.unicode_len() > 0 && name.get_char(0) == '.'
}

/// Whether `needle` stands in `hay` at index `i`.
pub fn matches_at(hay: &Vec<char>, needle: &Vec<char>, i: usize) -> (found: bool)
    ensures
        found == occurs_at(hay@, needle@, i as int),
{
    if needle.len() > hay.len() || i > hay.len() - needle.len() {
        return false;
    }
    let mut j: usize = 0;
    while j < needle.len()
        invariant
            j <= needle.len(),
            i + needle.len() <= hay.len(),
            forall|k: int| 0 <= k < j ==> hay@[i + k] == needle@[k],
        decreases needle.len() - j,
    {
        if hay[i + j] != needle[j] {
            proof {
                let part = hay@.subrange(i as int, i + needle.len());
                assert(part[j as int] == hay@[i + j]);
            }
            return false;
        }
        j = j + 1;
    }
    assert(hay@.subrange(i as int, i + needle.len()) =~= needle@);
    true
}

/// Whether `needle` stands somewhere in `hay`.
pub fn contains_chars(hay: &Vec<char>, needle: &Vec<char>) -> (found: bool)
    ensures
        found == has_substring(hay@, needle@),
{
    if needle.len() > hay.len() {
        return false;
    }
    if needle.len() == 0 {
        assert(occurs_at(hay@, needle@, 0)) by {
            assert(hay@.subrange(0, 0) =~= needle@);
        }
        return true;
    }
    let last = hay.len() - needle.len();
    let mut i: usize = 0;
    while i <= last
        invariant
            i <= last + 1,
            last < hay.len(),
            last == hay.len() - needle.len(),
            forall|k: int| 0 <= k < i ==> !occurs_at(hay@, needle@, k),
        decreases last + 1 - i,
    {
        if matches_at(hay, needle, i) {
            return true;
        }
        i = i + 1;
    }
    false
}

} // verus!
