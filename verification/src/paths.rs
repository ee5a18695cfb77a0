//! The names of the three files that a partition is written to. Each is
//! the name of the output file with `_train`, `_val` or `_test` put in
//! before its extension.
//!
//! A name is taken as text in which `/` separates directories. The
//! extension of a file name begins at its last dot, unless that dot is the
//! first character of the file name. A file name without extension gets the
//! extension `csv`.
//!
//! The rule is for names in plain form only, see `is_plain`. Left out are
//! the empty name, a name that ends with `/`, a name whose last component is
//! `.` or `..`, and a name with an empty component or a `.` between two
//! separators. What such a name stands for is for the platform's path
//! handling to say, and for it there is no result here.

use crate::chars::{string_of_range, to_chars};
use vstd::prelude::*;
use vstd::string::StringExecFns;

verus! {

/// The position of the last `c` in `s`, or -1 where `s` holds none.
pub open spec fn last_index_of(s: Seq<char>, c: char) -> int
    decreases s.len(),
{
    if s.len() == 0 {
        -1
    } else if s.last() == c {
        s.len() - 1
    } else {
        last_index_of(s.drop_last(), c)
    }
}

/// The position at which the file name begins: behind the last `/`.
pub open spec fn name_start(path: Seq<char>) -> int {
    last_index_of(path, '/') + 1
}

/// The position of the dot at which the extension begins, if the file
/// name has one.
pub open spec fn extension_dot(path: Seq<char>) -> Option<int> {
    let dot = last_index_of(path, '.');
    if dot > name_start(path) {
        Some(dot)
    } else {
        None
    }
}

/// The file name of `path`: what stands behind its last `/`.
pub open spec fn file_name(path: Seq<char>) -> Seq<char> {
    path.skip(name_start(path))
}

/// Two separators stand at `i` and behind it.
pub open spec fn double_slash_at(path: Seq<char>, i: int) -> bool {
    0 <= i && i + 1 < path.len() && path[i] == '/' && path[i + 1] == '/'
}

/// A `.` between two separators stands behind `i`.
pub open spec fn dot_component_at(path: Seq<char>, i: int) -> bool {
    0 <= i && i + 2 < path.len() && path[i] == '/' && path[i + 1] == '.' && path[i + 2] == '/'
}

/// A name in plain form: it is not empty and does not end with `/`, its
/// file name is neither `.` nor `..`, and it holds no empty component and no
/// `.` between two separators.
pub open spec fn is_plain(path: Seq<char>) -> bool {
    &&& path.len() > 0
    &&& path.last() != '/'
    &&& file_name(path) != seq!['.']
    &&& file_name(path) != seq!['.', '.']
    &&& forall|i: int| !#[trigger] double_slash_at(path, i)
    &&& forall|i: int| !#[trigger] dot_component_at(path, i)
}

/// `path` with `suffix` put in before the extension.
pub open spec fn with_suffix_before_extension(path: Seq<char>, suffix: Seq<char>) -> Seq<char> {
    match extension_dot(path) {
        Some(dot) => path.take(dot) + suffix + path.skip(dot),
        None => path + suffix + ".csv"@,
    }
}

/// Where `last_index_of` points, `c` stands, and it stands nowhere behind.
pub proof fn lemma_last_index_of(s: Seq<char>, c: char)
    ensures
        -1 <= last_index_of(s, c) < s.len(),
        last_index_of(s, c) >= 0 ==> s[last_index_of(s, c)] == c,
        forall|i: int| last_index_of(s, c) < i < s.len() ==> #[trigger] s[i] != c,
    decreases s.len(),
{
    if s.len() > 0 && s.last() != c {
        let front = s.drop_last();
        lemma_last_index_of(front, c);
        assert forall|i: int| last_index_of(s, c) < i < s.len() implies #[trigger] s[i] != c by {
            if i < front.len() {
                assert(front[i] == s[i]);
            }
        }
    }
}

/// `last_index_of` is the one position at which `c` stands with none
/// behind it.
pub proof fn lemma_last_index_is(s: Seq<char>, c: char, at: int)
    requires
        -1 <= at < s.len(),
        at >= 0 ==> s[at] == c,
        forall|i: int| at < i < s.len() ==> #[trigger] s[i] != c,
    ensures
        last_index_of(s, c) == at,
{
    lemma_last_index_of(s, c);
    let found = last_index_of(s, c);
    if found > at {
        assert(s[found] != c);
    }
    if at > found {
        assert(s[at] != c);
    }
}

/// The position of the last `c` among `chars`, if there is one.
pub fn find_last(chars: &Vec<char>, c: char) -> (r: Option<usize>)
    ensures
        match r {
            Some(at) => at < chars.len() && last_index_of(chars@, c) == at,
            None => last_index_of(chars@, c) == -1,
        },
{
    let mut i: usize = chars.len();
    while i > 0
        invariant
            i <= chars.len(),
            forall|k: int| i <= k < chars.len() ==> #[trigger] chars@[k] != c,
        decreases i,
    {
        if chars[i - 1] == c {
            proof {
                lemma_last_index_is(chars@, c, i - 1);
            }
            return Some(i - 1);
        }
        i -= 1;
    }
    proof {
        lemma_last_index_is(chars@, c, -1);
    }
    None
}

/// Whether the name held in `chars` is in plain form.
pub fn plain(chars: &Vec<char>) -> (b: bool)
    ensures
        b == is_plain(chars@),
{
    let n = chars.len();
    if n == 0 || chars[n - 1] == '/' {
        return false;
    }
    let start = match find_last(chars, '/') {
        Some(slash) => slash + 1,
        None => 0,
    };
    proof {
        lemma_last_index_of(chars@, '/');
        let name = file_name(chars@);
        assert(name.len() == n - start);
        assert(name[0] == chars@[start as int]);
        if n - start == 2 {
            assert(name[1] == chars@[start + 1]);
        }
    }
    if n - start == 1 && chars[start] == '.' {
        assert(file_name(chars@) =~= seq!['.']);
        return false;
    }
    if n - start == 2 && chars[start] == '.' && chars[start + 1] == '.' {
        assert(file_name(chars@) =~= seq!['.', '.']);
        return false;
    }
    let mut i: usize = 0;
    while i < n
        invariant
            n == chars.len(),
            i <= n,
            forall|k: int| k < i ==> !#[trigger] double_slash_at(chars@, k),
            forall|k: int| k < i ==> !#[trigger] dot_component_at(chars@, k),
        decreases n - i,
    {
        if chars[i] == '/' && i + 1 < n {
            if chars[i + 1] == '/' {
                assert(double_slash_at(chars@, i as int));
                return false;
            }
            if i + 2 < n && chars[i + 1] == '.' && chars[i + 2] == '/' {
                assert(dot_component_at(chars@, i as int));
                return false;
            }
        }
        i += 1;
    }
    true
}

/// The name of an output file with `suffix` put in before its extension,
/// where the name is in plain form; `None` where it is not.
pub fn suffixed_path(path: &str, suffix: &str) -> (r: Option<String>)
    ensures
        r is Some <==> is_plain(path@),
        r matches Some(out) ==> out@ == with_suffix_before_extension(path@, suffix@),
{
    let chars = to_chars(path);
    if !plain(&chars) {
        return None;
    }
    let n = chars.len();
    let start = match find_last(&chars, '/') {
        Some(slash) => slash + 1,
        None => 0,
    };
    let dot = match find_last(&chars, '.') {
        Some(at) => if at > start {
            Some(at)
        } else {
            None
        },
        None => None,
    };
    match dot {
        Some(at) => {
            let mut out = string_of_range(&chars, 0, at);
            out.append(suffix);
            let rest = string_of_range(&chars, at, n);
            out.append(rest.as_str());
            assert(chars@.subrange(0, at as int) == path@.take(at as int));
            assert(chars@.subrange(at as int, n as int) == path@.skip(at as int));
            Some(out)
        },
        None => {
            let mut out = String::from_str(path);
            out.append(suffix);
            out.append(".csv");
            Some(out)
        },
    }
}

/// The names of the files for the training, the validation and the test
/// set, in this order, where the name of the output file is in plain form;
/// `None` where it is not.
pub fn split_paths(path: &str) -> (r: Option<(String, String, String)>)
    ensures
        r is Some <==> is_plain(path@),
        r matches Some(names) ==> {
            &&& names.0@ == with_suffix_before_extension(path@, "_train"@)
            &&& names.1@ == with_suffix_before_extension(path@, "_val"@)
            &&& names.2@ == with_suffix_before_extension(path@, "_test"@)
        },
{
    match suffixed_path(path, "_train") {
        Some(train) => match suffixed_path(path, "_val") {
            Some(val) => match suffixed_path(path, "_test") {
                Some(test) => Some((train, val, test)),
                None => None,
            },
            None => None,
        },
        None => None,
    }
}

} // verus!
