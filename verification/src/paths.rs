//! Deriving the output location from the input location: append a
//! fixed suffix to the file name's stem and place the result in the
//! input's parent directory.  The directory, file name and stem follow
//! std's path semantics: trailing separators and trailing `.`
//! components are ignored, `.` and `..` have no file name, and a path
//! without a parent falls back to a fixed directory.

use vstd::prelude::*;
use vstd::string::StrSliceExecFns;
use vstd::string::StringExecFns;

use crate::text::push_char;

verus! {

/// Index of the last occurrence of `c` in `s`, or `-1` when `c` does
/// not occur.
pub open spec fn last_index_of(s: Seq<char>, c: char) -> int
    decreases s.len(),
{
    if s.len() == 0 {
        -1
    } else if s.last() == c {
        s.len() - 1
    } else {
        last_index_of(s.drop_last(), c)
    }
}

pub proof fn lemma_last_index_bounds(s: Seq<char>, c: char)
    ensures
        -1 <= last_index_of(s, c) < s.len(),
        last_index_of(s, c) >= 0 ==> s[last_index_of(s, c)] == c,
        forall|k: int| last_index_of(s, c) < k < s.len() ==> s[k] != c,
    decreases s.len(),
{
    if s.len() != 0 && s.last() != c {
        lemma_last_index_bounds(s.drop_last(), c);
        let r = last_index_of(s, c);
        if r >= 0 {
            assert(s.drop_last()[r] == c);
        }
        assert forall|k: int| r < k < s.len() implies s[k] != c by {
            if k < s.len() - 1 {
                assert(s.drop_last()[k] != c);
            }
        }
    }
}

/// `last_index_of` returns `i` exactly when `c` stands at `i` and
/// nowhere after it.
pub proof fn lemma_last_index_at(s: Seq<char>, c: char, i: int)
    requires
        0 <= i < s.len(),
        s[i] == c,
        forall|k: int| i < k < s.len() ==> s[k] != c,
    ensures
        last_index_of(s, c) == i,
    decreases s.len(),
{
    if s.last() != c {
        assert(i < s.len() - 1);
        assert forall|k: int| i < k < s.drop_last().len() implies s.drop_last()[k] != c by {
            assert(s[k] != c);
        }
        lemma_last_index_at(s.drop_last(), c, i);
    }
}

/// When `c` occurs nowhere in `s`, `last_index_of` is `-1`.
pub proof fn lemma_last_index_absent(s: Seq<char>, c: char)
    requires
        forall|k: int| 0 <= k < s.len() ==> s[k] != c,
    ensures
        last_index_of(s, c) == -1,
    decreases s.len(),
{
    if s.len() != 0 {
        assert(s.last() != c);
        lemma_last_index_absent(s.drop_last(), c);
    }
}

/// Whether every character of `p` is a separator: the path is a bare
/// root.
pub open spec fn all_slashes(p: Seq<char>) -> bool {
    forall|k: int| 0 <= k < p.len() ==> p[k] == '/'
}

/// `p` with trailing separators and trailing `.` components removed,
/// down to the last real component.  A bare root keeps its separators,
/// a lone leading `.` (the current directory as a component) stays,
/// and `..` is a real component.
pub open spec fn trim_tail(p: Seq<char>) -> Seq<char>
    decreases p.len(),
{
    if p.len() == 0 {
        p
    } else if p.last() == '/' && !all_slashes(p) {
        trim_tail(p.drop_last())
    } else if p.last() == '.' && p.len() >= 2 && p[p.len() - 2] == '/' {
        trim_tail(p.drop_last())
    } else {
        p
    }
}

/// A trimmed path that is neither empty nor a bare root ends with its
/// last component, never with a separator.
pub proof fn lemma_trim_tail_last(p: Seq<char>)
    ensures
        trim_tail(p).len() > 0 && !all_slashes(trim_tail(p)) ==> trim_tail(p).last() != '/',
    decreases p.len(),
{
    if p.len() != 0 {
        if p.last() == '/' && !all_slashes(p) {
            lemma_trim_tail_last(p.drop_last());
        } else if p.last() == '.' && p.len() >= 2 && p[p.len() - 2] == '/' {
            lemma_trim_tail_last(p.drop_last());
        }
    }
}

/// The file name of `p`, as std reads it: the last component once
/// trailing separators and `.` components are ignored; none when the
/// path is empty, a bare root, a lone `.`, or ends in `..`.
pub open spec fn path_file_name(p: Seq<char>) -> Option<Seq<char>> {
    let q = trim_tail(p);
    if q.len() == 0 || all_slashes(q) {
        None
    } else {
        let c = q.skip(last_index_of(q, '/') + 1);
        if c == "."@ || c == ".."@ {
            None
        } else {
            Some(c)
        }
    }
}

/// The stem of a file name: everything before the last `'.'`, except
/// that a name whose only `'.'` is its first character is kept whole.
pub open spec fn stem_rule(c: Seq<char>) -> Seq<char> {
    let e = last_index_of(c, '.');
    if e <= 0 {
        c
    } else {
        c.take(e)
    }
}

/// The file stem of `p`: the stem of its file name, when one exists.
pub open spec fn path_file_stem(p: Seq<char>) -> Option<Seq<char>> {
    match path_file_name(p) {
        Option::None => Option::None,
        Option::Some(c) => Option::Some(stem_rule(c)),
    }
}

/// The parent of `p`, as std reads it: the text before the last
/// component, itself trimmed of trailing separators and `.`
/// components; none when the path is empty or a bare root.
pub open spec fn path_parent(p: Seq<char>) -> Option<Seq<char>> {
    let q = trim_tail(p);
    if q.len() == 0 || all_slashes(q) {
        None
    } else {
        Some(trim_tail(q.take(last_index_of(q, '/') + 1)))
    }
}

/// Adjoining a relative file name to a directory: an empty directory
/// contributes nothing, a directory that already ends with a separator
/// (a bare root) takes the name directly, and any other directory gets
/// one separator between the two.
pub open spec fn path_join(dir: Seq<char>, name: Seq<char>) -> Seq<char> {
    if dir.len() == 0 {
        name
    } else if dir.last() == '/' {
        dir + name
    } else {
        dir + seq!['/'] + name
    }
}

/// The derived output location: the fixed suffix appended to the file
/// stem (a fixed stand-in when the path has none), placed in the
/// path's parent directory (a fixed directory when the path has none).
pub open spec fn out_path_spec(p: Seq<char>) -> Seq<char> {
    let stem = match path_file_stem(p) {
        Option::Some(s) => s,
        Option::None => "output"@,
    };
    let dir = match path_parent(p) {
        Option::Some(d) => d,
        Option::None => "./data"@,
    };
    path_join(dir, stem + "_Analyzed_Output.csv"@)
}

/// Whether the whole of `s` is separators.
fn all_slashes_str(s: &str) -> (b: bool)
    ensures
        b == all_slashes(s@),
{
    let n = s.unicode_len();
    let mut i: usize = 0;
    while i < n
        invariant
            i <= n,
            n == s@.len(),
            forall|k: int| 0 <= k < i ==> s@[k] == '/',
        decreases n - i,
    {
        if s.get_char(i) != '/' {
            assert(s@[i as int] != '/');
            return false;
        }
        i += 1;
    }
    true
}

/// Drop trailing separators and `.` components, down to the last real
/// component.
fn trim_tail_str<'a>(s: &'a str) -> (r: &'a str)
    ensures
        r@ == trim_tail(s@),
    decreases s@.len(),
{
    let n = s.unicode_len();
    if n == 0 {
        return s;
    }
    let last = s.get_char(n - 1);
    if last == '/' && !all_slashes_str(s) {
        let head = s.substring_char(0, n - 1);
        proof {
            assert(head@ =~= s@.drop_last());
        }
        trim_tail_str(head)
    } else if last == '.' && n >= 2 && s.get_char(n - 2) == '/' {
        let head = s.substring_char(0, n - 1);
        proof {
            assert(head@ =~= s@.drop_last());
        }
        trim_tail_str(head)
    } else {
        s
    }
}

/// Index of the last occurrence of `c` in `s`, when one exists.
fn rfind_char(s: &str, c: char) -> (r: Option<usize>)
    ensures
        match r {
            Some(i) => i as int == last_index_of(s@, c) && i < s@.len(),
            None => last_index_of(s@, c) == -1,
        },
{
    let n = s.unicode_len();
    let mut i: usize = n;
    while i > 0
        invariant
            i <= n,
            n == s@.len(),
            forall|k: int| i <= k < n ==> s@[k] != c,
        decreases i,
    {
        i -= 1;
        if s.get_char(i) == c {
            proof {
                lemma_last_index_at(s@, c, i as int);
            }
            return Some(i);
        }
    }
    proof {
        lemma_last_index_absent(s@, c);
    }
    None
}

/// Derive the output location from the input location: the fixed
/// suffix appended to the file stem, alongside the input file.
pub fn generate_output_path(input_path: &str) -> (r: String)
    ensures
        r@ == out_path_spec(input_path@),
{
    let q = trim_tail_str(input_path);
    let qn = q.unicode_len();
    let stem: String;
    let dir: String;
    if qn == 0 || all_slashes_str(q) {
        stem = String::from_str("output");
        dir = String::from_str("./data");
        proof {
            assert(path_file_stem(input_path@) is None);
            assert(path_parent(input_path@) is None);
        }
    } else {
        proof {
            lemma_last_index_bounds(q@, '/');
            lemma_trim_tail_last(input_path@);
        }
        let cut = match rfind_char(q, '/') {
            Some(i) => i + 1,
            None => 0,
        };
        let c = q.substring_char(cut, qn);
        proof {
            assert(c@ =~= q@.skip(last_index_of(q@, '/') + 1));
            reveal_strlit(".");
            reveal_strlit("..");
        }
        let cn = c.unicode_len();
        let is_dot = cn == 1 && c.get_char(0) == '.';
        let is_dot_dot = cn == 2 && c.get_char(0) == '.' && c.get_char(1) == '.';
        if is_dot || is_dot_dot {
            stem = String::from_str("output");
            proof {
                if is_dot {
                    assert(c@ =~= "."@);
                } else {
                    assert(c@ =~= ".."@);
                }
                assert(path_file_stem(input_path@) is None);
            }
        } else {
            proof {
                assert(c@ != "."@ && c@ != ".."@);
            }
            let whole: bool;
            let mut e: usize = 0;
            match rfind_char(c, '.') {
                Some(d) => {
                    if d > 0 {
                        whole = false;
                        e = d;
                    } else {
                        whole = true;
                    }
                },
                None => {
                    whole = true;
                },
            }
            if whole {
                stem = c.to_owned();
            } else {
                stem = c.substring_char(0, e).to_owned();
            }
            proof {
                assert(stem@ == stem_rule(c@));
                assert(path_file_stem(input_path@) == Option::Some(stem@));
            }
        }
        let head = q.substring_char(0, cut);
        proof {
            assert(head@ =~= q@.take(last_index_of(q@, '/') + 1));
        }
        dir = trim_tail_str(head).to_owned();
        proof {
            assert(path_parent(input_path@) == Option::Some(dir@));
        }
    }
    let mut out: String;
    let dn = dir.as_str().unicode_len();
    if dn == 0 {
        out = String::new();
    } else {
        let ends_sep = dir.as_str().get_char(dn - 1) == '/';
        out = dir;
        if !ends_sep {
            push_char(&mut out, '/');
        }
    }
    out.append(stem.as_str());
    out.append("_Analyzed_Output.csv");
    proof {
        assert(out@ =~= out_path_spec(input_path@));
    }
    out
}

} // verus!
