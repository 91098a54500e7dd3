//! Character-level helpers shared by the Markdown parser: whitespace
//! trimming, digit and run tests, first-occurrence search, and splitting.
//!
//! Each executable helper is specified against a spec function over the
//! string's view, a `Seq<char>`.

use vstd::prelude::*;
use vstd::string::StrSliceExecFns;

verus! {

/// The whitespace characters that trimming removes.
pub open spec fn is_ws(c: char) -> bool {
    c == ' ' || c == '\t' || c == '\r' || c == '\n'
}

/// `s` without its leading whitespace.
pub open spec fn trim_start_spec(s: Seq<char>) -> Seq<char>
    decreases s.len(),
{
    if s.len() > 0 && is_ws(s[0]) {
        trim_start_spec(s.drop_first())
    } else {
        s
    }
}

/// `s` without its trailing whitespace.
pub open spec fn trim_end_spec(s: Seq<char>) -> Seq<char>
    decreases s.len(),
{
    if s.len() > 0 && is_ws(s.last()) {
        trim_end_spec(s.drop_last())
    } else {
        s
    }
}

/// `s` without leading or trailing whitespace.
pub open spec fn trim_spec(s: Seq<char>) -> Seq<char> {
    trim_end_spec(trim_start_spec(s))
}

/// If every character before index `i` is whitespace, trimming the front of
/// `s` is the same as trimming the front of the suffix starting at `i`.
proof fn lemma_trim_start_skip(s: Seq<char>, i: int)
    requires
        0 <= i <= s.len(),
        forall|j: int| 0 <= j < i ==> is_ws(s[j]),
    ensures
        trim_start_spec(s) == trim_start_spec(s.subrange(i, s.len() as int)),
    decreases i,
{
    if i == 0 {
        assert(s.subrange(0, s.len() as int) =~= s);
    } else {
        assert(is_ws(s[0]));
        assert(s.drop_first() =~= s.subrange(1, s.len() as int));
        lemma_trim_start_skip(s.drop_first(), i - 1);
        assert(s.drop_first().subrange(i - 1, s.drop_first().len() as int) =~= s.subrange(
            i,
            s.len() as int,
        ));
    }
}

/// A sequence whose first character is not whitespace (or which is empty) is
/// unchanged by front trimming.
proof fn lemma_trim_start_noop(s: Seq<char>)
    requires
        s.len() == 0 || !is_ws(s[0]),
    ensures
        trim_start_spec(s) == s,
{
}

/// If every character from index `i` on is whitespace, trimming the back of
/// `s` is the same as trimming the back of the prefix ending at `i`.
proof fn lemma_trim_end_truncate(s: Seq<char>, i: int)
    requires
        0 <= i <= s.len(),
        forall|j: int| i <= j < s.len() ==> is_ws(s[j]),
    ensures
        trim_end_spec(s) == trim_end_spec(s.subrange(0, i)),
    decreases s.len() - i,
{
    if i == s.len() {
        assert(s.subrange(0, s.len() as int) =~= s);
    } else {
        assert(is_ws(s.last()));
        assert(s.drop_last() =~= s.subrange(0, s.len() - 1));
        lemma_trim_end_truncate(s.drop_last(), i);
        assert(s.drop_last().subrange(0, i) =~= s.subrange(0, i));
    }
}

/// A sequence whose last character is not whitespace (or which is empty) is
/// unchanged by back trimming.
proof fn lemma_trim_end_noop(s: Seq<char>)
    requires
        s.len() == 0 || !is_ws(s.last()),
    ensures
        trim_end_spec(s) == s,
{
}

/// Executable whitespace test, usable in specs as `is_ws`.
#[verifier::when_used_as_spec(is_ws)]
pub fn is_ws_exec(c: char) -> (r: bool)
    ensures
        r == is_ws(c),
{
    c == ' ' || c == '\t' || c == '\r' || c == '\n'
}

/// Removes leading whitespace from `s`.
pub fn trim_start(s: &str) -> (r: &str)
    ensures
        r@ == trim_start_spec(s@),
{
    let n = s.unicode_len();
    let mut i: usize = 0;
    while i < n && is_ws_exec(s.get_char(i))
        invariant
            0 <= i <= n,
            n == s@.len(),
            forall|j: int| 0 <= j < i ==> is_ws(s@[j]),
        decreases n - i,
    {
        i = i + 1;
    }
    proof {
        lemma_trim_start_skip(s@, i as int);
        lemma_trim_start_noop(s@.subrange(i as int, s@.len() as int));
    }
    s.substring_char(i, n)
}

/// Removes trailing whitespace from `s`.
pub fn trim_end(s: &str) -> (r: &str)
    ensures
        r@ == trim_end_spec(s@),
{
    let n = s.unicode_len();
    let mut i: usize = n;
    while i > 0 && is_ws_exec(s.get_char(i - 1))
        invariant
            0 <= i <= n,
            n == s@.len(),
            forall|j: int| i <= j < n ==> is_ws(s@[j]),
        decreases i,
    {
        i = i - 1;
    }
    proof {
        lemma_trim_end_truncate(s@, i as int);
        lemma_trim_end_noop(s@.subrange(0, i as int));
    }
    s.substring_char(0, i)
}

/// Removes leading and trailing whitespace from `s`.
pub fn trim(s: &str) -> (r: &str)
    ensures
        r@ == trim_spec(s@),
{
    trim_end(trim_start(s))
}

/// An ASCII decimal digit.
pub open spec fn is_digit(c: char) -> bool {
    '0' <= c && c <= '9'
}

/// Executable digit test, usable in specs as `is_digit`.
#[verifier::when_used_as_spec(is_digit)]
pub fn is_digit_exec(c: char) -> (r: bool)
    ensures
        r == is_digit(c),
{
    '0' <= c && c <= '9'
}

/// The number of consecutive occurrences of `c` at the front of `s`.
pub open spec fn leading_count_spec(s: Seq<char>, c: char) -> nat
    decreases s.len(),
{
    if s.len() > 0 && s[0] == c {
        1 + leading_count_spec(s.drop_first(), c)
    } else {
        0
    }
}

/// If the first `i` characters of `s` are all `c`, the leading run of `c` in
/// `s` is `i` plus the leading run in the suffix starting at `i`.
proof fn lemma_leading_count_skip(s: Seq<char>, c: char, i: int)
    requires
        0 <= i <= s.len(),
        forall|j: int| 0 <= j < i ==> s[j] == c,
    ensures
        leading_count_spec(s, c) == i + leading_count_spec(s.subrange(i, s.len() as int), c),
    decreases i,
{
    if i == 0 {
        assert(s.subrange(0, s.len() as int) =~= s);
    } else {
        assert(s[0] == c);
        assert(s.drop_first() =~= s.subrange(1, s.len() as int));
        lemma_leading_count_skip(s.drop_first(), c, i - 1);
        assert(s.drop_first().subrange(i - 1, s.drop_first().len() as int) =~= s.subrange(
            i,
            s.len() as int,
        ));
    }
}

/// Counts the consecutive occurrences of `c` at the front of `s`.
pub fn leading_count(s: &str, c: char) -> (r: usize)
    ensures
        r == leading_count_spec(s@, c),
        r <= s@.len(),
{
    let n = s.unicode_len();
    let mut i: usize = 0;
    while i < n && s.get_char(i) == c
        invariant
            0 <= i <= n,
            n == s@.len(),
            forall|j: int| 0 <= j < i ==> s@[j] == c,
        decreases n - i,
    {
        i = i + 1;
    }
    proof {
        lemma_leading_count_skip(s@, c, i as int);
        let rest = s@.subrange(i as int, s@.len() as int);
        assert(leading_count_spec(rest, c) == 0);
    }
    i
}

/// Whether `c` occurs in `s`.
pub open spec fn contains_char(s: Seq<char>, c: char) -> bool {
    exists|i: int| 0 <= i < s.len() && s[i] == c
}

/// Everything after the first occurrence of `c` in `s` (the whole of `s` is
/// returned unchanged when `c` does not occur).
pub open spec fn after_first_spec(s: Seq<char>, c: char) -> Seq<char>
    decreases s.len(),
{
    if s.len() == 0 {
        s
    } else if s[0] == c {
        s.drop_first()
    } else {
        after_first_spec(s.drop_first(), c)
    }
}

/// When `i` is the first index of `c` in `s`, the tail after the first
/// occurrence of `c` is exactly the suffix starting at `i + 1`.
proof fn lemma_after_first_at(s: Seq<char>, c: char, i: int)
    requires
        0 <= i < s.len(),
        s[i] == c,
        forall|j: int| 0 <= j < i ==> s[j] != c,
    ensures
        after_first_spec(s, c) == s.subrange(i + 1, s.len() as int),
    decreases i,
{
    if i == 0 {
        assert(s.drop_first() =~= s.subrange(1, s.len() as int));
    } else {
        assert(s[0] != c);
        lemma_after_first_at(s.drop_first(), c, i - 1);
        assert(s.drop_first().subrange(i, s.drop_first().len() as int) =~= s.subrange(
            i + 1,
            s.len() as int,
        ));
    }
}

/// The index of the first occurrence of `c` in `s`, if any.
pub fn find_char(s: &str, c: char) -> (r: Option<usize>)
    ensures
        match r {
            Some(i) => i < s@.len() && s@[i as int] == c && forall|j: int|
                0 <= j < i ==> s@[j] != c,
            None => !contains_char(s@, c),
        },
{
    let n = s.unicode_len();
    let mut i: usize = 0;
    while i < n
        invariant
            0 <= i <= n,
            n == s@.len(),
            forall|j: int| 0 <= j < i ==> s@[j] != c,
        decreases n - i,
    {
        if s.get_char(i) == c {
            return Some(i);
        }
        i = i + 1;
    }
    None
}

/// Everything after the first occurrence of `c` in `s`, or `None` when `c`
/// does not occur.
pub fn split_after_first<'a>(s: &'a str, c: char) -> (r: Option<&'a str>)
    ensures
        match r {
            Some(t) => contains_char(s@, c) && t@ == after_first_spec(s@, c),
            None => !contains_char(s@, c),
        },
{
    match find_char(s, c) {
        Some(i) => {
            proof {
                lemma_after_first_at(s@, c, i as int);
            }
            let n = s.unicode_len();
            Some(s.substring_char(i + 1, n))
        },
        None => None,
    }
}

/// The pieces of `s` between occurrences of the separator `c`, in order.
/// There is always at least one piece; an empty `s` yields one empty piece.
pub open spec fn split_char_spec(s: Seq<char>, c: char) -> Seq<Seq<char>>
    decreases s.len(),
{
    if s.len() == 0 {
        seq![Seq::<char>::empty()]
    } else if s.last() == c {
        split_char_spec(s.drop_last(), c).push(Seq::<char>::empty())
    } else {
        let r = split_char_spec(s.drop_last(), c);
        r.update(r.len() - 1, r.last().push(s.last()))
    }
}

/// Splitting yields at least one piece.
pub proof fn lemma_split_char_nonempty(s: Seq<char>, c: char)
    ensures
        split_char_spec(s, c).len() >= 1,
    decreases s.len(),
{
    if s.len() > 0 {
        lemma_split_char_nonempty(s.drop_last(), c);
    }
}

/// Splits `s` on every occurrence of `c`.
pub fn split_char(s: &str, c: char) -> (r: Vec<String>)
    ensures
        r.deep_view() == split_char_spec(s@, c),
{
    let n = s.unicode_len();
    let mut out: Vec<String> = Vec::new();
    let mut cur: String = String::new();
    let mut i: usize = 0;
    while i < n
        invariant
            0 <= i <= n,
            n == s@.len(),
            out.deep_view().push(cur@) == split_char_spec(s@.subrange(0, i as int), c),
        decreases n - i,
    {
        let ghost prefix = s@.subrange(0, i as int);
        let ghost prefix1 = s@.subrange(0, i + 1);
        proof {
            assert(prefix1.drop_last() =~= prefix);
            assert(prefix1.last() == s@[i as int]);
            lemma_split_char_nonempty(prefix, c);
        }
        let ch = s.get_char(i);
        if ch == c {
            out.push(cur);
            cur = String::new();
            proof {
                assert(out.deep_view().push(cur@) =~= split_char_spec(prefix1, c));
            }
        } else {
            cur.append(s.substring_char(i, i + 1));
            proof {
                let r = split_char_spec(prefix, c);
                assert(s@.subrange(i as int, i + 1) =~= seq![s@[i as int]]);
                assert(r.last() + s@.subrange(i as int, i + 1) =~= r.last().push(s@[i as int]));
                assert(out.deep_view().push(cur@) =~= r.update(r.len() - 1, r.last().push(
                    s@[i as int],
                )));
            }
        }
        i = i + 1;
    }
    proof {
        assert(s@.subrange(0, n as int) =~= s@);
    }
    out.push(cur);
    proof {
        assert(out.deep_view() =~= split_char_spec(s@, c));
    }
    out
}

/// Every piece of `cells`, trimmed of leading and trailing whitespace.
pub open spec fn trim_all_spec(cells: Seq<Seq<char>>) -> Seq<Seq<char>> {
    cells.map_values(|t: Seq<char>| trim_spec(t))
}

/// Trims every string of `cells`.
pub fn trim_all(cells: &Vec<String>) -> (r: Vec<String>)
    ensures
        r.deep_view() == trim_all_spec(cells.deep_view()),
{
    let mut out: Vec<String> = Vec::new();
    let mut i: usize = 0;
    while i < cells.len()
        invariant
            0 <= i <= cells.len(),
            out.deep_view() == cells.deep_view().subrange(0, i as int).map_values(
                |t: Seq<char>| trim_spec(t),
            ),
        decreases cells.len() - i,
    {
        let ghost pre = cells.deep_view().subrange(0, i as int);
        let ghost out0 = out.deep_view();
        let t = String::from_str(trim(cells[i].as_str()));
        proof {
            assert(cells@[i as int]@ == cells.deep_view()[i as int]);
            assert(t@ == trim_spec(cells.deep_view()[i as int]));
        }
        out.push(t);
        proof {
            let pre1 = cells.deep_view().subrange(0, i + 1);
            assert(out.deep_view() =~= out0.push(t@));
            assert forall|j: int| 0 <= j < pre1.len() implies pre1.map_values(
                |t: Seq<char>| trim_spec(t),
            )[j] == out0.push(t@)[j] by {
                assert(pre1[j] == cells.deep_view()[j]);
                if j < i {
                    assert(pre[j] == cells.deep_view()[j]);
                    assert(out0[j] == trim_spec(pre[j]));
                }
            }
            assert(out.deep_view() =~= pre1.map_values(|t: Seq<char>| trim_spec(t)));
        }
        i = i + 1;
    }
    proof {
        assert(cells.deep_view().subrange(0, cells.deep_view().len() as int) =~= cells.deep_view());
    }
    out
}

/// `s` with one leading and one trailing occurrence of `c` removed, when
/// present.
pub open spec fn strip_edges_spec(s: Seq<char>, c: char) -> Seq<char> {
    let a = if s.len() > 0 && s[0] == c {
        s.drop_first()
    } else {
        s
    };
    if a.len() > 0 && a.last() == c {
        a.drop_last()
    } else {
        a
    }
}

/// Removes at most one leading and one trailing occurrence of `c` from `s`.
pub fn strip_edges<'a>(s: &'a str, c: char) -> (r: &'a str)
    ensures
        r@ == strip_edges_spec(s@, c),
{
    let n = s.unicode_len();
    let lo: usize = if n > 0 && s.get_char(0) == c {
        1
    } else {
        0
    };
    let hi: usize = if n > lo && s.get_char(n - 1) == c {
        n - 1
    } else {
        n
    };
    proof {
        let a = if s@.len() > 0 && s@[0] == c {
            s@.drop_first()
        } else {
            s@
        };
        assert(a =~= s@.subrange(lo as int, n as int));
        if a.len() > 0 && a.last() == c {
            assert(a.drop_last() =~= s@.subrange(lo as int, hi as int));
        } else {
            assert(a =~= s@.subrange(lo as int, hi as int));
        }
    }
    s.substring_char(lo, hi)
}

} // verus!
