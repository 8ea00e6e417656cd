//! Character-level text operations: searching for a delimiter, splitting
//! on it, joining with it, and stripping a set of characters.  Each
//! executable operation is specified against a recursive spec function
//! over `Seq<char>`.

use vstd::prelude::*;
use vstd::string::StrSliceExecFns;
use vstd::string::StringExecFns;

verus! {

/// Index of the first occurrence of `d` in `s`, or `s.len()` when `d`
/// does not occur.
pub open spec fn find_char(s: Seq<char>, d: char) -> int
    decreases s.len(),
{
    if s.len() == 0 {
        0
    } else if s[0] == d {
        0
    } else {
        1 + find_char(s.drop_first(), d)
    }
}

pub proof fn lemma_find_char_bounds(s: Seq<char>, d: char)
    ensures
        0 <= find_char(s, d) <= s.len(),
        forall|k: int| 0 <= k < find_char(s, d) ==> s[k] != d,
        find_char(s, d) < s.len() ==> s[find_char(s, d)] == d,
    decreases s.len(),
{
    if s.len() != 0 && s[0] != d {
        lemma_find_char_bounds(s.drop_first(), d);
        assert forall|k: int| 0 <= k < find_char(s, d) implies s[k] != d by {
            if k > 0 {
                assert(s.drop_first()[k - 1] != d);
            }
        }
        if find_char(s, d) < s.len() {
            assert(s.drop_first()[find_char(s.drop_first(), d)] == d);
        }
    }
}

/// `find_char` returns `i` exactly when `d` occurs at `i` and nowhere
/// before it (or `i` is the length and `d` does not occur at all).
pub proof fn lemma_find_char_at(s: Seq<char>, d: char, i: int)
    requires
        0 <= i <= s.len(),
        forall|k: int| 0 <= k < i ==> s[k] != d,
        i < s.len() ==> s[i] == d,
    ensures
        find_char(s, d) == i,
    decreases s.len(),
{
    if s.len() != 0 && s[0] != d {
        assert(i > 0) by {
            if i == 0 {
                assert(s[0] == d);
            }
        }
        lemma_find_char_at(s.drop_first(), d, i - 1);
    }
}

/// The segments of `s` between occurrences of `d`, in order.  A string
/// without `d` is one segment; each occurrence of `d` ends a segment,
/// so `n` occurrences give `n + 1` segments.
pub open spec fn split_on(s: Seq<char>, d: char) -> Seq<Seq<char>>
    decreases s.len(),
    via split_on_decreases
{
    let i = find_char(s, d);
    if i == s.len() {
        seq![s]
    } else {
        seq![s.take(i)] + split_on(s.skip(i + 1), d)
    }
}

#[via_fn]
proof fn split_on_decreases(s: Seq<char>, d: char) {
    lemma_find_char_bounds(s, d);
}

pub proof fn lemma_split_on_len(s: Seq<char>, d: char)
    ensures
        split_on(s, d).len() >= 1,
    decreases s.len(),
{
    lemma_find_char_bounds(s, d);
    let i = find_char(s, d);
    if i != s.len() {
        lemma_split_on_len(s.skip(i + 1), d);
    }
}

/// First index at which `s` holds `d`, or the length of `s` when `d`
/// does not occur.
fn find_first(s: &str, d: char) -> (i: usize)
    ensures
        i as int == find_char(s@, d),
{
    let n = s.unicode_len();
    let mut i: usize = 0;
    while i < n
        invariant
            i <= n,
            n == s@.len(),
            forall|k: int| 0 <= k < i ==> s@[k] != d,
        decreases n - i,
    {
        if s.get_char(i) == d {
            proof {
                lemma_find_char_at(s@, d, i as int);
            }
            return i;
        }
        i += 1;
    }
    proof {
        lemma_find_char_at(s@, d, n as int);
    }
    n
}

/// The continuation of a join: one copy of `d` before each part.
pub open spec fn join_tail(parts: Seq<Seq<char>>, d: char) -> Seq<char>
    decreases parts.len(),
{
    if parts.len() == 0 {
        Seq::empty()
    } else {
        seq![d] + parts[0] + join_tail(parts.drop_first(), d)
    }
}

/// The parts concatenated, with one copy of `d` between neighbours.
pub open spec fn join_with(parts: Seq<Seq<char>>, d: char) -> Seq<char> {
    if parts.len() == 0 {
        Seq::empty()
    } else {
        parts[0] + join_tail(parts.drop_first(), d)
    }
}

pub proof fn lemma_join_tail_push(parts: Seq<Seq<char>>, x: Seq<char>, d: char)
    ensures
        join_tail(parts.push(x), d) == join_tail(parts, d) + seq![d] + x,
    decreases parts.len(),
{
    if parts.len() == 0 {
        assert(parts.push(x).drop_first() =~= Seq::<Seq<char>>::empty());
        assert(join_tail(Seq::<Seq<char>>::empty(), d) == Seq::<char>::empty());
        assert(parts.push(x)[0] == x);
        assert(join_tail(parts.push(x), d) == seq![d] + x + join_tail(
            parts.push(x).drop_first(),
            d,
        ));
        assert(seq![d] + x + Seq::<char>::empty() =~= join_tail(parts, d) + seq![d] + x);
    } else {
        let pt = parts.drop_first();
        assert(parts.push(x).drop_first() =~= pt.push(x));
        assert(parts.push(x)[0] == parts[0]);
        assert(join_tail(parts.push(x), d) == seq![d] + parts[0] + join_tail(pt.push(x), d));
        lemma_join_tail_push(pt, x, d);
        assert(seq![d] + parts[0] + (join_tail(pt, d) + seq![d] + x) =~= (seq![d] + parts[0]
            + join_tail(pt, d)) + seq![d] + x);
        assert(join_tail(parts, d) == seq![d] + parts[0] + join_tail(pt, d));
    }
}

pub proof fn lemma_join_with_push(parts: Seq<Seq<char>>, x: Seq<char>, d: char)
    ensures
        parts.len() == 0 ==> join_with(parts.push(x), d) == x,
        parts.len() > 0 ==> join_with(parts.push(x), d) == join_with(parts, d) + seq![d] + x,
{
    if parts.len() == 0 {
        assert(parts.push(x).drop_first() =~= Seq::<Seq<char>>::empty());
        assert(join_with(parts.push(x), d) =~= x);
    } else {
        assert(parts.push(x).drop_first() =~= parts.drop_first().push(x));
        lemma_join_tail_push(parts.drop_first(), x, d);
        assert(join_with(parts.push(x), d) =~= join_with(parts, d) + seq![d] + x);
    }
}

/// Every line in turn, each followed by one newline character.
pub open spec fn terminate_lines(lines: Seq<Seq<char>>) -> Seq<char>
    decreases lines.len(),
{
    if lines.len() == 0 {
        Seq::empty()
    } else {
        lines[0] + seq!['\n'] + terminate_lines(lines.drop_first())
    }
}

pub proof fn lemma_terminate_lines_push(lines: Seq<Seq<char>>, x: Seq<char>)
    ensures
        terminate_lines(lines.push(x)) == terminate_lines(lines) + x + seq!['\n'],
    decreases lines.len(),
{
    if lines.len() == 0 {
        assert(lines.push(x).drop_first() =~= Seq::<Seq<char>>::empty());
        assert(terminate_lines(Seq::<Seq<char>>::empty()) == Seq::<char>::empty());
        assert(lines.push(x)[0] == x);
        assert(terminate_lines(lines.push(x)) == x + seq!['\n'] + terminate_lines(
            lines.push(x).drop_first(),
        ));
        assert(x + seq!['\n'] + Seq::<char>::empty() =~= terminate_lines(lines) + x + seq!['\n']);
    } else {
        let lt = lines.drop_first();
        assert(lines.push(x).drop_first() =~= lt.push(x));
        assert(lines.push(x)[0] == lines[0]);
        assert(terminate_lines(lines.push(x)) == lines[0] + seq!['\n'] + terminate_lines(
            lt.push(x),
        ));
        lemma_terminate_lines_push(lt, x);
        assert(lines[0] + seq!['\n'] + (terminate_lines(lt) + x + seq!['\n']) =~= (lines[0]
            + seq!['\n'] + terminate_lines(lt)) + x + seq!['\n']);
        assert(terminate_lines(lines) == lines[0] + seq!['\n'] + terminate_lines(lt));
    }
}

pub proof fn lemma_find_char_concat(a: Seq<char>, b: Seq<char>, d: char)
    requires
        forall|k: int| 0 <= k < a.len() ==> a[k] != d,
    ensures
        find_char(a + seq![d] + b, d) == a.len(),
{
    let s = a + seq![d] + b;
    assert(s[a.len() as int] == d);
    assert forall|k: int| 0 <= k < a.len() implies s[k] != d by {
        assert(s[k] == a[k]);
    }
    lemma_find_char_at(s, d, a.len() as int);
}

/// For a non-empty part list, the continuation of a join is one
/// separator followed by the join of the same parts.
pub proof fn lemma_join_tail_is_sep_join(parts: Seq<Seq<char>>, d: char)
    requires
        parts.len() >= 1,
    ensures
        join_tail(parts, d) == seq![d] + join_with(parts, d),
{
    assert(seq![d] + parts[0] + join_tail(parts.drop_first(), d) =~= seq![d] + (parts[0]
        + join_tail(parts.drop_first(), d)));
}

/// Splitting on `d` undoes joining with `d`, as long as no part holds
/// `d` itself.
pub proof fn lemma_split_join(parts: Seq<Seq<char>>, d: char)
    requires
        parts.len() >= 1,
        forall|p: int, k: int|
            0 <= p < parts.len() && 0 <= k < parts[p].len() ==> #[trigger] parts[p][k] != d,
    ensures
        split_on(join_with(parts, d), d) == parts,
    decreases parts.len(),
{
    let s = join_with(parts, d);
    if parts.len() == 1 {
        assert(join_tail(parts.drop_first(), d) == Seq::<char>::empty()) by {
            assert(parts.drop_first() =~= Seq::<Seq<char>>::empty());
        }
        assert(s =~= parts[0]);
        lemma_find_char_at(s, d, s.len() as int);
        assert(split_on(s, d) =~= parts);
    } else {
        let rest = parts.drop_first();
        lemma_join_tail_is_sep_join(rest, d);
        assert(s =~= parts[0] + seq![d] + join_with(rest, d));
        lemma_find_char_concat(parts[0], join_with(rest, d), d);
        let i = parts[0].len() as int;
        assert(find_char(s, d) == i);
        assert(i < s.len());
        assert(s.take(i) =~= parts[0]);
        assert(s.skip(i + 1) =~= join_with(rest, d));
        assert forall|p: int, k: int|
            0 <= p < rest.len() && 0 <= k < rest[p].len() implies #[trigger] rest[p][k] != d by {
            assert(rest[p] == parts[p + 1]);
        }
        lemma_split_join(rest, d);
        assert(split_on(s, d) =~= seq![parts[0]] + rest);
        assert(seq![parts[0]] + rest =~= parts);
    }
}

proof fn lemma_join_tail_no_char(parts: Seq<Seq<char>>, d: char, c: char)
    requires
        c != d,
        forall|p: int, k: int|
            0 <= p < parts.len() && 0 <= k < parts[p].len() ==> #[trigger] parts[p][k] != c,
    ensures
        forall|m: int| 0 <= m < join_tail(parts, d).len() ==> #[trigger] join_tail(parts, d)[m]
            != c,
    decreases parts.len(),
{
    if parts.len() != 0 {
        let rest = parts.drop_first();
        assert forall|p: int, k: int|
            0 <= p < rest.len() && 0 <= k < rest[p].len() implies #[trigger] rest[p][k] != c by {
            assert(rest[p] == parts[p + 1]);
        }
        lemma_join_tail_no_char(rest, d, c);
        let jt = join_tail(parts, d);
        assert forall|m: int| 0 <= m < jt.len() implies #[trigger] jt[m] != c by {
            if m == 0 {
                assert(jt[m] == d);
            } else if m < 1 + parts[0].len() {
                assert(jt[m] == parts[0][m - 1]);
            } else {
                assert(jt[m] == join_tail(rest, d)[m - 1 - parts[0].len()]);
            }
        }
    }
}

/// A join holds no character `c` when `c` is not the separator and no
/// part holds `c`.
pub proof fn lemma_join_with_no_char(parts: Seq<Seq<char>>, d: char, c: char)
    requires
        c != d,
        forall|p: int, k: int|
            0 <= p < parts.len() && 0 <= k < parts[p].len() ==> #[trigger] parts[p][k] != c,
    ensures
        forall|m: int| 0 <= m < join_with(parts, d).len() ==> #[trigger] join_with(parts, d)[m]
            != c,
{
    if parts.len() != 0 {
        let rest = parts.drop_first();
        assert forall|p: int, k: int|
            0 <= p < rest.len() && 0 <= k < rest[p].len() implies #[trigger] rest[p][k] != c by {
            assert(rest[p] == parts[p + 1]);
        }
        lemma_join_tail_no_char(rest, d, c);
        let j = join_with(parts, d);
        assert forall|m: int| 0 <= m < j.len() implies #[trigger] j[m] != c by {
            if m < parts[0].len() {
                assert(j[m] == parts[0][m]);
            } else {
                assert(j[m] == join_tail(rest, d)[m - parts[0].len()]);
            }
        }
    }
}

/// Terminating every line with a newline is the same as joining the
/// lines plus one empty tail segment with the newline separator.
pub proof fn lemma_terminate_as_join(lines: Seq<Seq<char>>)
    ensures
        terminate_lines(lines) == join_with(lines.push(Seq::empty()), '\n'),
    decreases lines.len(),
{
    let e = Seq::<char>::empty();
    if lines.len() == 0 {
        assert(lines.push(e).drop_first() =~= Seq::<Seq<char>>::empty());
        assert(join_tail(Seq::<Seq<char>>::empty(), '\n') == Seq::<char>::empty());
        assert(lines.push(e)[0] == e);
        assert(join_with(lines.push(e), '\n') =~= terminate_lines(lines));
    } else {
        let rest = lines.drop_first();
        assert(lines.push(e).drop_first() =~= rest.push(e));
        assert(lines.push(e)[0] == lines[0]);
        assert(join_with(lines.push(e), '\n') == lines[0] + join_tail(rest.push(e), '\n'));
        lemma_join_tail_is_sep_join(rest.push(e), '\n');
        lemma_terminate_as_join(rest);
        assert(lines[0] + (seq!['\n'] + terminate_lines(rest)) =~= lines[0] + seq!['\n']
            + terminate_lines(rest));
        assert(join_with(lines.push(e), '\n') == terminate_lines(lines));
    }
}

/// `s` with every character that occurs in `banned` removed and all
/// other characters kept in order.
pub open spec fn strip_chars_spec(s: Seq<char>, banned: Seq<char>) -> Seq<char>
    decreases s.len(),
{
    if s.len() == 0 {
        Seq::empty()
    } else {
        strip_chars_spec(s.drop_last(), banned) + (if banned.contains(s.last()) {
            Seq::empty()
        } else {
            seq![s.last()]
        })
    }
}

/// No character of the result of a strip occurs in `banned`.
pub proof fn lemma_strip_chars_clean(s: Seq<char>, banned: Seq<char>)
    ensures
        forall|k: int| 0 <= k < strip_chars_spec(s, banned).len()
            ==> !banned.contains(#[trigger] strip_chars_spec(s, banned)[k]),
    decreases s.len(),
{
    if s.len() != 0 {
        lemma_strip_chars_clean(s.drop_last(), banned);
        let sp = strip_chars_spec(s.drop_last(), banned);
        assert forall|k: int| 0 <= k < strip_chars_spec(s, banned).len() implies !banned.contains(
            #[trigger] strip_chars_spec(s, banned)[k],
        ) by {
            if k < sp.len() {
                assert(strip_chars_spec(s, banned)[k] == sp[k]);
            } else {
                assert(!banned.contains(s.last()));
                assert(strip_chars_spec(s, banned)[k] == s.last());
            }
        }
    }
}

/// Stripping a string in which no banned character occurs returns it
/// unchanged.
pub proof fn lemma_strip_chars_noop(s: Seq<char>, banned: Seq<char>)
    requires
        forall|k: int| 0 <= k < s.len() ==> !banned.contains(#[trigger] s[k]),
    ensures
        strip_chars_spec(s, banned) == s,
    decreases s.len(),
{
    if s.len() != 0 {
        assert(!banned.contains(s.last()));
        lemma_strip_chars_noop(s.drop_last(), banned);
        assert(strip_chars_spec(s, banned) =~= s);
    } else {
        assert(strip_chars_spec(s, banned) =~= s);
    }
}

/// Stripping is idempotent: a second strip with the same banned set
/// changes nothing.
pub proof fn lemma_strip_chars_idempotent(s: Seq<char>, banned: Seq<char>)
    ensures
        strip_chars_spec(strip_chars_spec(s, banned), banned) == strip_chars_spec(s, banned),
{
    lemma_strip_chars_clean(s, banned);
    lemma_strip_chars_noop(strip_chars_spec(s, banned), banned);
}

/// Relies on `String::push`: appends the given character to the end of
/// the string.
#[verifier::external_body]
pub(crate) fn push_char(s: &mut String, c: char)
    ensures
        final(s)@ == old(s)@.push(c),
{
    s.push(c);
}

/// Whether `c` occurs in `v`.
pub fn contains_char(v: &Vec<char>, c: char) -> (b: bool)
    ensures
        b == v@.contains(c),
{
    let mut i: usize = 0;
    while i < v.len()
        invariant
            i <= v@.len(),
            forall|k: int| 0 <= k < i ==> v@[k] != c,
        decreases v@.len() - i,
    {
        if v[i] == c {
            assert(v@[i as int] == c);
            return true;
        }
        i += 1;
    }
    false
}

/// Join the parts with one copy of `d` between neighbours.
pub fn join_strs(parts: &Vec<String>, d: char) -> (r: String)
    ensures
        r@ == join_with(parts.deep_view(), d),
{
    let ghost pv = parts.deep_view();
    let mut r = String::new();
    if parts.len() == 0 {
        return r;
    }
    r.append(parts[0].as_str());
    proof {
        assert(pv.take(1) =~= seq![pv[0]]);
        assert(pv.take(1).drop_first() =~= Seq::<Seq<char>>::empty());
        assert(r@ == join_with(pv.take(1), d));
    }
    let mut k: usize = 1;
    while k < parts.len()
        invariant
            1 <= k <= parts.len(),
            pv == parts.deep_view(),
            pv.len() == parts@.len(),
            r@ == join_with(pv.take(k as int), d),
        decreases parts@.len() - k,
    {
        push_char(&mut r, d);
        r.append(parts[k].as_str());
        proof {
            lemma_join_with_push(pv.take(k as int), pv[k as int], d);
            assert(pv.take(k as int + 1) =~= pv.take(k as int).push(pv[k as int]));
            assert(r@ =~= join_with(pv.take(k as int), d) + seq![d] + pv[k as int]);
        }
        k += 1;
    }
    proof {
        assert(pv.take(parts@.len() as int) =~= pv);
    }
    r
}

/// Remove every character of `banned` from `s`, keeping all other
/// characters in order.
pub fn strip_chars(s: &str, banned: &Vec<char>) -> (r: String)
    ensures
        r@ == strip_chars_spec(s@, banned@),
{
    let n = s.unicode_len();
    let mut r = String::new();
    let mut i: usize = 0;
    while i < n
        invariant
            i <= n,
            n == s@.len(),
            r@ == strip_chars_spec(s@.take(i as int), banned@),
        decreases n - i,
    {
        let c = s.get_char(i);
        if !contains_char(banned, c) {
            push_char(&mut r, c);
        }
        proof {
            let t = s@.take(i as int + 1);
            assert(t.drop_last() =~= s@.take(i as int));
            assert(t.last() == s@[i as int]);
            if banned@.contains(c) {
                assert(r@ =~= strip_chars_spec(t, banned@));
            } else {
                assert(r@ =~= strip_chars_spec(t, banned@));
            }
        }
        i += 1;
    }
    proof {
        assert(s@.take(n as int) =~= s@);
    }
    r
}

/// Split `s` into the segments between occurrences of `d`.
pub fn split_str(s: &str, d: char) -> (r: Vec<String>)
    ensures
        r.deep_view() == split_on(s@, d),
    decreases s@.len(),
{
    proof {
        lemma_find_char_bounds(s@, d);
    }
    let n = s.unicode_len();
    let i = find_first(s, d);
    if i == n {
        let mut r: Vec<String> = Vec::new();
        r.push(s.to_owned());
        proof {
            assert(r.deep_view() =~= seq![s@]);
        }
        r
    } else {
        let head = s.substring_char(0, i).to_owned();
        let tail = s.substring_char(i + 1, n);
        let mut r = split_str(tail, d);
        r.insert(0, head);
        proof {
            assert(head@ =~= s@.take(i as int));
            assert(tail@ =~= s@.skip(i as int + 1));
            assert(r.deep_view() =~= seq![s@.take(i as int)] + split_on(s@.skip(i as int + 1), d));
        }
        r
    }
}

} // verus!
