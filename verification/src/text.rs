//! Text viewed as a sequence of characters: equality, substring matching
//! and line splitting.
//!
//! Contents are split on newline characters (`'\n'`).  A trailing newline
//! produces no empty final line.  Carriage returns are ordinary characters:
//! they are never stripped, neither at line ends nor inside lines.

use vstd::prelude::*;

verus! {

use vstd::string::StrSliceExecFns;

/// `needle` occurs in `hay` as a contiguous run of characters starting at
/// position `i`.
pub open spec fn match_at(hay: Seq<char>, needle: Seq<char>, i: int) -> bool {
    &&& 0 <= i
    &&& i + needle.len() <= hay.len()
    &&& hay.subrange(i, i + needle.len()) == needle
}

/// `needle` occurs somewhere in `hay` as a contiguous run of characters.
/// The empty sequence occurs in everything.
pub open spec fn contains_seq(hay: Seq<char>, needle: Seq<char>) -> bool {
    exists|i: int| match_at(hay, needle, i)
}

/// The position of the first newline character of `s`, or `s.len()` if `s`
/// holds none.
pub open spec fn first_newline(s: Seq<char>) -> int
    decreases s.len(),
{
    if s.len() == 0 {
        0
    } else if s[0] == '\n' {
        0
    } else {
        1 + first_newline(s.drop_first())
    }
}

/// The lines of `s`: the runs of characters between newline characters.
/// Empty contents have no lines, and a trailing newline produces no empty
/// final line.
pub open spec fn spec_lines(s: Seq<char>) -> Seq<Seq<char>>
    decreases s.len(),
{
    if s.len() == 0 {
        Seq::empty()
    } else {
        let j = first_newline(s);
        if 0 <= j && j < s.len() {
            seq![s.subrange(0, j)] + spec_lines(s.subrange(j + 1, s.len() as int))
        } else {
            seq![s]
        }
    }
}

/// The first newline position lies within the sequence, carries a newline
/// unless it is the length, and nothing before it is a newline.
pub proof fn lemma_first_newline_bounds(s: Seq<char>)
    ensures
        0 <= first_newline(s) <= s.len(),
        first_newline(s) < s.len() ==> s[first_newline(s)] == '\n',
        forall|k: int| 0 <= k < first_newline(s) ==> s[k] != '\n',
    decreases s.len(),
{
    if s.len() == 0 {
    } else if s[0] == '\n' {
    } else {
        lemma_first_newline_bounds(s.drop_first());
        assert forall|k: int| 0 <= k < first_newline(s) implies s[k] != '\n' by {
            if k > 0 {
                assert(s.drop_first()[k - 1] != '\n');
            }
        }
    }
}

/// If no newline stands before position `j` and a newline (or the end of the
/// sequence) stands at `j`, then `j` is the first newline position.
pub proof fn lemma_first_newline_at(s: Seq<char>, j: int)
    requires
        0 <= j <= s.len(),
        forall|k: int| 0 <= k < j ==> s[k] != '\n',
        j < s.len() ==> s[j] == '\n',
    ensures
        first_newline(s) == j,
    decreases j,
{
    if j == 0 {
    } else {
        assert(s[0] != '\n');
        lemma_first_newline_at(s.drop_first(), j - 1);
    }
}

/// Splitting off the first line: if `s` has no newline before position `j`
/// and a newline at `j`, its lines are `s[..j]` followed by the lines of
/// `s[j + 1..]`.
pub proof fn lemma_lines_split_front(s: Seq<char>, j: int)
    requires
        0 <= j < s.len(),
        forall|k: int| 0 <= k < j ==> s[k] != '\n',
        s[j] == '\n',
    ensures
        spec_lines(s) == seq![s.subrange(0, j)] + spec_lines(s.subrange(j + 1, s.len() as int)),
{
    lemma_first_newline_at(s, j);
}

/// A non-empty sequence without newlines is its own single line.
pub proof fn lemma_lines_whole(s: Seq<char>)
    requires
        s.len() > 0,
        forall|k: int| 0 <= k < s.len() ==> s[k] != '\n',
    ensures
        spec_lines(s) == seq![s],
{
    lemma_first_newline_at(s, s.len() as int);
}

/// Splitting ASCII contents yields ASCII lines.
pub proof fn lemma_lines_ascii(s: Seq<char>)
    requires
        vstd::utf8::is_ascii_chars(s),
    ensures
        forall|i: int|
            0 <= i < spec_lines(s).len() ==> vstd::utf8::is_ascii_chars(
                #[trigger] spec_lines(s)[i],
            ),
    decreases s.len(),
{
    if s.len() == 0 {
    } else {
        let j = first_newline(s);
        lemma_first_newline_bounds(s);
        if 0 <= j && j < s.len() {
            let suffix = s.subrange(j + 1, s.len() as int);
            assert(vstd::utf8::is_ascii_chars(suffix));
            lemma_lines_ascii(suffix);
            assert(vstd::utf8::is_ascii_chars(s.subrange(0, j)));
            assert forall|i: int|
                0 <= i < spec_lines(s).len() implies vstd::utf8::is_ascii_chars(
                #[trigger] spec_lines(s)[i],
            ) by {
                if i > 0 {
                    assert(spec_lines(s)[i] == spec_lines(suffix)[i - 1]);
                }
            }
        }
    }
}

/// Character-for-character equality of two string slices.
pub fn str_eq(a: &str, b: &str) -> (r: bool)
    ensures
        r == (a@ == b@),
{
    let an = a.unicode_len();
    let bn = b.unicode_len();
    if an != bn {
        return false;
    }
    let mut i: usize = 0;
    while i < an
        invariant
            an == a@.len(),
            an == b@.len(),
            i <= an,
            forall|k: int| 0 <= k < i ==> a@[k] == b@[k],
        decreases an - i,
    {
        if a.get_char(i) != b.get_char(i) {
            return false;
        }
        i += 1;
    }
    proof {
        assert(a@ =~= b@);
    }
    true
}

/// `needle` occurs in `hay` at exactly position `i`.
fn match_at_exec(hay: &str, needle: &str, i: usize) -> (r: bool)
    requires
        i + needle@.len() <= hay@.len(),
        hay@.len() <= usize::MAX,
    ensures
        r == match_at(hay@, needle@, i as int),
{
    let m = needle.unicode_len();
    let mut j: usize = 0;
    while j < m
        invariant
            m == needle@.len(),
            i + m <= hay@.len() <= usize::MAX,
            j <= m,
            forall|k: int| 0 <= k < j ==> hay@[i + k] == needle@[k],
        decreases m - j,
    {
        if hay.get_char(i + j) != needle.get_char(j) {
            proof {
                if match_at(hay@, needle@, i as int) {
                    assert(hay@.subrange(i as int, i + m)[j as int] == needle@[j as int]);
                }
            }
            return false;
        }
        j += 1;
    }
    proof {
        assert(hay@.subrange(i as int, i + m) =~= needle@);
    }
    true
}

/// Substring test: `hay` contains `needle` as a contiguous run of
/// characters.  An empty `needle` is contained in everything.
pub fn contains_str(hay: &str, needle: &str) -> (r: bool)
    ensures
        r == contains_seq(hay@, needle@),
{
    let n = hay.unicode_len();
    let m = needle.unicode_len();
    if m == 0 {
        proof {
            assert(hay@.subrange(0, 0) =~= needle@);
            assert(match_at(hay@, needle@, 0));
        }
        return true;
    }
    if m > n {
        return false;
    }
    let mut i: usize = 0;
    while i <= n - m
        invariant
            n == hay@.len(),
            m == needle@.len(),
            1 <= m <= n,
            i <= n - m + 1,
            forall|k: int| 0 <= k < i ==> !match_at(hay@, needle@, k),
        decreases n - m + 1 - i,
    {
        if match_at_exec(hay, needle, i) {
            return true;
        }
        i += 1;
    }
    false
}

/// The lines of `contents`, each a borrowed view into `contents`, in their
/// original order.
pub fn split_lines<'a>(contents: &'a str) -> (lines: Vec<&'a str>)
    ensures
        lines.deep_view() == spec_lines(contents@),
{
    let n = contents.unicode_len();
    let mut lines: Vec<&'a str> = Vec::new();
    proof {
        assert(contents@.subrange(0, n as int) =~= contents@);
        assert(lines.deep_view() + spec_lines(contents@) =~= spec_lines(contents@));
    }
    let mut start: usize = 0;
    let mut i: usize = 0;
    while i < n
        invariant
            n == contents@.len(),
            start <= i <= n,
            forall|k: int| start <= k < i ==> contents@[k] != '\n',
            spec_lines(contents@) == lines.deep_view() + spec_lines(
                contents@.subrange(start as int, n as int),
            ),
        decreases n - i,
    {
        if contents.get_char(i) == '\n' {
            let line = contents.substring_char(start, i);
            let ghost pre = lines.deep_view();
            lines.push(line);
            proof {
                let tail = contents@.subrange(start as int, n as int);
                let suffix = contents@.subrange(i + 1, n as int);
                lemma_lines_split_front(tail, i - start);
                assert(tail.subrange(0, i - start) =~= line@);
                assert(tail.subrange(i - start + 1, tail.len() as int) =~= suffix);
                assert(lines.deep_view() =~= pre.push(line@));
                assert(pre + (seq![line@] + spec_lines(suffix)) =~= pre.push(line@)
                    + spec_lines(suffix));
            }
            start = i + 1;
        }
        i += 1;
    }
    if start < n {
        let line = contents.substring_char(start, n);
        let ghost pre = lines.deep_view();
        lines.push(line);
        proof {
            let tail = contents@.subrange(start as int, n as int);
            lemma_lines_whole(tail);
            assert(lines.deep_view() =~= pre.push(line@));
            assert(pre + seq![tail] =~= pre.push(line@));
        }
    } else {
        proof {
            let tail = contents@.subrange(start as int, n as int);
            assert(tail.len() == 0);
            assert(lines.deep_view() + spec_lines(tail) =~= lines.deep_view());
        }
    }
    lines
}

} // verus!
