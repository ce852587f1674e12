//! Paths as character sequences: file names, stems, extensions and joining.
//!
//! Paths are `/`-separated. The file name is what follows the last separator;
//! its extension is what follows its last dot, unless that dot is the first
//! character of the name; the stem is the file name without the extension
//! and that dot.

use vstd::prelude::*;
use vstd::string::*;

verus! {

/// Index of the last occurrence of `c` in `s`, or -1.
pub open spec fn last_index_of(s: Seq<char>, c: char) -> int
    decreases s.len(),
{
    if s.len() == 0 {
        -1
    } else if s.last() == c {
        s.len() - 1
    } else {
        last_index_of(s.drop_last(), c)
    }
}

pub open spec fn file_name_of(p: Seq<char>) -> Seq<char> {
    p.subrange(last_index_of(p, '/') + 1, p.len() as int)
}

pub open spec fn stem_of(p: Seq<char>) -> Seq<char> {
    let n = file_name_of(p);
    let d = last_index_of(n, '.');
    if d > 0 {
        n.subrange(0, d)
    } else {
        n
    }
}

pub open spec fn extension_of(p: Seq<char>) -> Option<Seq<char>> {
    let n = file_name_of(p);
    let d = last_index_of(n, '.');
    if d > 0 {
        Some(n.subrange(d + 1, n.len() as int))
    } else {
        None
    }
}

/// `a` equals the lower-case ASCII character `w` up to ASCII case.
pub open spec fn char_matches_lower(a: char, w: char) -> bool {
    a == w || ('A' <= a && a <= 'Z' && a as u32 + 32 == w as u32)
}

/// `s` equals the lower-case ASCII word `w` up to ASCII case.
pub open spec fn matches_lower(s: Seq<char>, w: Seq<char>) -> bool {
    s.len() == w.len() && forall|i: int| 0 <= i < s.len() ==> char_matches_lower(#[trigger] s[i], w[i])
}

/// The path has an extension equal, up to ASCII case, to the lower-case word `ext`.
/// No character outside ASCII lower-cases to an ASCII digit or to a letter
/// other than `i` and `k`, so for words without those two this is the same as
/// comparing the fully lower-cased extension with `ext`.
pub open spec fn has_extension(p: Seq<char>, ext: Seq<char>) -> bool {
    extension_of(p) matches Some(e) && matches_lower(e, ext)
}

/// `name` appended to `base`, with a separator between them unless `base` is
/// empty or already ends with one.
pub open spec fn join_of(base: Seq<char>, name: Seq<char>) -> Seq<char> {
    if base.len() == 0 || base.last() == '/' {
        base + name
    } else {
        base + seq!['/'] + name
    }
}

pub proof fn lemma_last_index_bounds(s: Seq<char>, c: char)
    ensures
        -1 <= last_index_of(s, c) < s.len(),
        last_index_of(s, c) >= 0 ==> s[last_index_of(s, c)] == c,
        forall|k: int| last_index_of(s, c) < k < s.len() ==> s[k] != c,
    decreases s.len(),
{
    if s.len() > 0 && s.last() != c {
        lemma_last_index_bounds(s.drop_last(), c);
        assert forall|k: int| last_index_of(s, c) < k < s.len() implies s[k] != c by {
            if k < s.len() - 1 {
                assert(s.drop_last()[k] == s[k]);
            }
        }
    }
}

/// Position of the last `c` in `s`.
pub fn last_index(s: &str, c: char) -> (r: Option<usize>)
    ensures
        match r {
            Some(i) => i == last_index_of(s@, c),
            None => last_index_of(s@, c) == -1,
        },
{
    let n = s.unicode_len();
    let mut i: usize = n;
    assert(s@.subrange(0, n as int) =~= s@);
    while i > 0 && s.get_char(i - 1) != c
        invariant
            i <= n == s@.len(),
            last_index_of(s@, c) == last_index_of(s@.subrange(0, i as int), c),
        decreases i,
    {
        assert(s@.subrange(0, i as int).drop_last() =~= s@.subrange(0, i - 1));
        i = i - 1;
    }
    if i == 0 {
        None
    } else {
        Some(i - 1)
    }
}

/// The file name of `path`.
pub fn file_name(path: &str) -> (r: &str)
    ensures
        r@ == file_name_of(path@),
{
    proof {
        lemma_last_index_bounds(path@, '/');
    }
    let n = path.unicode_len();
    let start = match last_index(path, '/') {
        Some(i) => i + 1,
        None => 0,
    };
    path.substring_char(start, n)
}

/// The stem of `path`: the identity under which an input is tracked.
pub fn file_stem(path: &str) -> (r: String)
    ensures
        r@ == stem_of(path@),
{
    let name = file_name(path);
    proof {
        lemma_last_index_bounds(name@, '.');
    }
    match last_index(name, '.') {
        Some(d) => {
            if d > 0 {
                name.substring_char(0, d).to_owned()
            } else {
                name.to_owned()
            }
        },
        None => name.to_owned(),
    }
}

/// Whether `path` has the extension `ext` (given in lower case), ignoring ASCII case.
pub fn has_extension_ignoring_case(path: &str, ext: &str) -> (r: bool)
    ensures
        r == has_extension(path@, ext@),
{
    let name = file_name(path);
    proof {
        lemma_last_index_bounds(name@, '.');
    }
    let found = last_index(name, '.');
    if found.is_none() {
        return false;
    }
    let d = found.unwrap();
    if d == 0 {
        return false;
    }
    let n = name.unicode_len();
    let e = name.substring_char(d + 1, n);
    let m = e.unicode_len();
    if m != ext.unicode_len() {
        return false;
    }
    let mut i: usize = 0;
    while i < m
        invariant
            i <= m == e@.len() == ext@.len(),
            extension_of(path@) == Some(e@),
            forall|k: int| 0 <= k < i ==> char_matches_lower(#[trigger] e@[k], ext@[k]),
        decreases m - i,
    {
        let a = e.get_char(i);
        let w = ext.get_char(i);
        if !(a == w || ('A' <= a && a <= 'Z' && a as u32 + 32 == w as u32)) {
            assert(!char_matches_lower(e@[i as int], ext@[i as int]));
            return false;
        }
        i = i + 1;
    }
    true
}

/// `name` placed under the directory `base`.
pub fn join_path(base: &str, name: &str) -> (r: String)
    ensures
        r@ == join_of(base@, name@),
{
    let mut r = String::from_str(base);
    let n = base.unicode_len();
    if n > 0 && base.get_char(n - 1) != '/' {
        let sep = "/";
        proof {
            reveal_strlit("/");
        }
        r.append(sep);
    }
    r.append(name);
    r
}

} // verus!
