//! Finding the engine run folder that belongs to an input: the most recently
//! modified folder, accepted only when its metadata records that input.

use vstd::prelude::*;

verus! {

/// A directory entry under the engine's output root.
pub struct RunFolder {
    pub path: String,
    /// Modification time, in nanoseconds since the Unix epoch.
    pub modified: u128,
    pub is_dir: bool,
}

/// `folders[i]` is the candidate: a directory modified no earlier than any
/// other directory, and later than every directory listed after it.
pub open spec fn is_latest(folders: Seq<RunFolder>, i: int) -> bool {
    &&& 0 <= i < folders.len()
    &&& folders[i].is_dir
    &&& forall|j: int|
        0 <= j < folders.len() && #[trigger] folders[j].is_dir ==> folders[j].modified <= folders[i].modified
            && (j > i ==> folders[j].modified < folders[i].modified)
}

/// No entry is a directory.
pub open spec fn located_nowhere(folders: Seq<RunFolder>) -> bool {
    forall|j: int| 0 <= j < folders.len() ==> !(#[trigger] folders[j].is_dir)
}

/// The most recently modified directory among `folders`; of several equally
/// recent ones, the last listed.
pub fn latest_run_folder(folders: &Vec<RunFolder>) -> (r: Option<usize>)
    ensures
        match r {
            Some(i) => is_latest(folders@, i as int),
            None => located_nowhere(folders@),
        },
{
    let mut best: Option<usize> = None;
    let mut i: usize = 0;
    while i < folders.len()
        invariant
            i <= folders@.len(),
            match best {
                Some(b) => b < i && is_latest(folders@.subrange(0, i as int), b as int),
                None => forall|j: int| 0 <= j < i ==> !(#[trigger] folders@[j].is_dir),
            },
        decreases folders@.len() - i,
    {
        let ghost prefix = folders@.subrange(0, i as int + 1);
        if folders[i].is_dir {
            match best {
                Some(b) => {
                    if folders[i].modified >= folders[b].modified {
                        best = Some(i);
                    }
                },
                None => {
                    best = Some(i);
                },
            }
        }
        proof {
            let old_prefix = folders@.subrange(0, i as int);
            assert forall|j: int| 0 <= j < i implies #[trigger] prefix[j] == old_prefix[j] by {}
        }
        i = i + 1;
    }
    assert(folders@.subrange(0, i as int) =~= folders@);
    best
}

/// The key of the metadata line that records the input path.
pub open spec fn metadata_key() -> Seq<char> {
    seq!['p', 'a', 't', 'h', '_', 't', 'o', '_', 'a', 'u', 'd', 'i', 'o', '_', 'f', 'i', 'l', 'e', ':']
}

/// The characters that `str::trim` removes (Unicode `White_Space`).
pub open spec fn is_white(c: char) -> bool {
    ('\t' <= c && c <= '\r') || c == ' ' || c == '\u{85}' || c == '\u{a0}' || c == '\u{1680}'
        || ('\u{2000}' <= c && c <= '\u{200a}') || c == '\u{2028}' || c == '\u{2029}'
        || c == '\u{202f}' || c == '\u{205f}' || c == '\u{3000}'
}

pub open spec fn trim_start_of(t: Seq<char>) -> Seq<char>
    decreases t.len(),
{
    if t.len() > 0 && is_white(t[0]) {
        trim_start_of(t.drop_first())
    } else {
        t
    }
}

pub open spec fn trim_end_of(t: Seq<char>) -> Seq<char>
    decreases t.len(),
{
    if t.len() > 0 && is_white(t.last()) {
        trim_end_of(t.drop_last())
    } else {
        t
    }
}

/// `t` without leading and trailing white space.
pub open spec fn trim_of(t: Seq<char>) -> Seq<char> {
    trim_end_of(trim_start_of(t))
}

/// The index of the first line feed at or after `i`, or the length of `s`.
pub open spec fn line_end(s: Seq<char>, i: int) -> int
    decreases s.len() - i,
{
    if i < 0 || i >= s.len() {
        s.len() as int
    } else if s[i] == '\n' {
        i
    } else {
        line_end(s, i + 1)
    }
}

pub open spec fn is_line_start(s: Seq<char>, i: int) -> bool {
    i == 0 || (0 < i <= s.len() && s[i - 1] == '\n')
}

/// The line starting at `i` is a key line whose trimmed value is `path`.
pub open spec fn records_at(s: Seq<char>, i: int, path: Seq<char>) -> bool {
    let e = line_end(s, i);
    let k = metadata_key().len() as int;
    &&& is_line_start(s, i)
    &&& 0 <= i
    &&& i + k <= e
    &&& s.subrange(i, i + k) == metadata_key()
    &&& trim_of(s.subrange(i + k, e)) == path
}

/// The metadata text has a key line whose trimmed value is `path`.
pub open spec fn records_input(s: Seq<char>, path: Seq<char>) -> bool {
    exists|i: int| records_at(s, i, path)
}

fn is_white_char(c: char) -> (r: bool)
    ensures
        r == is_white(c),
{
    ('\t' <= c && c <= '\r') || c == ' ' || c == '\u{85}' || c == '\u{a0}' || c == '\u{1680}'
        || ('\u{2000}' <= c && c <= '\u{200a}') || c == '\u{2028}' || c == '\u{2029}'
        || c == '\u{202f}' || c == '\u{205f}' || c == '\u{3000}'
}

/// `t` without leading and trailing white space.
pub fn trim_text(t: &str) -> (r: &str)
    ensures
        r@ == trim_of(t@),
{
    let n = t.unicode_len();
    let mut a: usize = 0;
    assert(t@.subrange(0, n as int) =~= t@);
    while a < n && is_white_char(t.get_char(a))
        invariant
            a <= n == t@.len(),
            trim_start_of(t@) == trim_start_of(t@.subrange(a as int, n as int)),
        decreases n - a,
    {
        assert(t@.subrange(a as int, n as int).drop_first() =~= t@.subrange(a + 1, n as int));
        a = a + 1;
    }
    let u = t.substring_char(a, n);
    let m = u.unicode_len();
    let mut b: usize = m;
    assert(u@.subrange(0, m as int) =~= u@);
    while b > 0 && is_white_char(u.get_char(b - 1))
        invariant
            b <= m == u@.len(),
            trim_end_of(u@) == trim_end_of(u@.subrange(0, b as int)),
        decreases b,
    {
        assert(u@.subrange(0, b as int).drop_last() =~= u@.subrange(0, b - 1));
        b = b - 1;
    }
    u.substring_char(0, b)
}

fn same_text(a: &str, b: &str) -> (r: bool)
    ensures
        r == (a@ == b@),
{
    a.to_owned() == b.to_owned()
}

proof fn lemma_line_end(s: Seq<char>, i: int)
    requires
        0 <= i <= s.len(),
    ensures
        i <= line_end(s, i) <= s.len(),
        line_end(s, i) < s.len() ==> s[line_end(s, i)] == '\n',
        forall|k: int| i <= k < line_end(s, i) ==> s[k] != '\n',
    decreases s.len() - i,
{
    if i < s.len() && s[i] != '\n' {
        lemma_line_end(s, i + 1);
    }
}

/// Whether the metadata text records `input` as the path of the audio file
/// that the run was made for.
pub fn records_input_path(content: &str, input: &str) -> (r: bool)
    ensures
        r == records_input(content@, input@),
{
    let key = "path_to_audio_file:";
    proof {
        reveal_strlit("path_to_audio_file:");
        assert(key@ =~= metadata_key());
    }
    let k: usize = 19;
    let n = content.unicode_len();
    let mut i: usize = 0;
    loop
        invariant
            i <= n == content@.len(),
            is_line_start(content@, i as int),
            key@ == metadata_key(),
            k == metadata_key().len(),
            forall|j: int| 0 <= j < i ==> !records_at(content@, j, input@),
        decreases n - i,
    {
        proof {
            lemma_line_end(content@, i as int);
        }
        let mut e: usize = i;
        while e < n && content.get_char(e) != '\n'
            invariant
                i <= e <= n == content@.len(),
                line_end(content@, i as int) == line_end(content@, e as int),
            decreases n - e,
        {
            e = e + 1;
        }
        if e - i >= k && same_text(content.substring_char(i, i + k), key) {
            let value = trim_text(content.substring_char(i + k, e));
            if same_text(value, input) {
                assert(records_at(content@, i as int, input@));
                return true;
            }
        }
        assert(!records_at(content@, i as int, input@));
        assert forall|j: int| i < j <= e implies !is_line_start(content@, j) by {
            assert(content@[j - 1] != '\n');
        }
        if e >= n {
            assert forall|j: int| !records_at(content@, j, input@) by {
                if j > n {
                    assert(!is_line_start(content@, j));
                }
            }
            return false;
        }
        i = e + 1;
    }
}

} // verus!
