//! The search engine: the lines of the contents that contain the query,
//! case-sensitively or case-insensitively, in their original order.

use vstd::prelude::*;

verus! {

use vstd::string::StrSliceExecFns;
use vstd::utf8::is_ascii_chars;

use crate::config::Config;
use crate::text::contains_seq;
use crate::text::contains_str;
use crate::text::lemma_lines_split_front;
use crate::text::lemma_lines_whole;
use crate::text::match_at;
use crate::text::spec_lines;
use crate::text::split_lines;

/// The predicate of a case-sensitive match: the line contains the query.
pub open spec fn matches_pred(q: Seq<char>) -> spec_fn(Seq<char>) -> bool {
    |l: Seq<char>| contains_seq(l, q)
}

/// The elements of `lines` that contain `q`, in order.
pub open spec fn filter_matching(q: Seq<char>, lines: Seq<Seq<char>>) -> Seq<Seq<char>> {
    lines.filter(matches_pred(q))
}

/// The lines of `contents` that contain `q`, in their original order.
pub open spec fn sensitive_matches(q: Seq<char>, contents: Seq<char>) -> Seq<Seq<char>> {
    filter_matching(q, spec_lines(contents))
}

/// What `str::to_lowercase` returns for a given sequence of characters.
pub uninterp spec fn lower_of(s: Seq<char>) -> Seq<char>;

/// The ASCII lowercase of a character: the letters `'A'` through `'Z'` map
/// to their lowercase counterparts; every other character stays itself.
pub open spec fn ascii_lower_char(c: char) -> char {
    if 'A' <= c && c <= 'Z' {
        (((c as u32) + 32) as u32) as char
    } else {
        c
    }
}

/// The ASCII lowercase of a sequence of characters, applied pointwise.
pub open spec fn ascii_lower(s: Seq<char>) -> Seq<char> {
    s.map_values(|c: char| ascii_lower_char(c))
}

/// Relies on `str::to_lowercase`: the mapping is locale-independent, so
/// the result is a function of the input characters alone; an empty string
/// stays empty; and on ASCII input it is the per-character ASCII lowercase
/// mapping (the Unicode lowercase mapping of `'A'` through `'Z'` is `'a'`
/// through `'z'`, and every other ASCII character is unchanged by it).
#[verifier::external_body]
fn to_lowercase_str(s: &str) -> (r: String)
    ensures
        r@ == lower_of(s@),
        s@.len() == 0 ==> r@.len() == 0,
        is_ascii_chars(s@) ==> r@ == ascii_lower(s@),
{
    s.to_lowercase()
}

/// The predicate of a case-insensitive match: the lowercase form of the
/// line contains the lowercase form of `q`.
pub open spec fn insensitive_pred(q: Seq<char>) -> spec_fn(Seq<char>) -> bool {
    |l: Seq<char>| contains_seq(lower_of(l), lower_of(q))
}

/// The elements of `lines` whose lowercase form contains the lowercase
/// form of `q`, in order.
pub open spec fn filter_matching_insensitive(q: Seq<char>, lines: Seq<Seq<char>>) -> Seq<
    Seq<char>,
> {
    lines.filter(insensitive_pred(q))
}

/// The lines of `contents` whose lowercase form contains the lowercase
/// form of `q`, in their original order.  Matches are reported as the
/// original lines, never as their lowercase forms.
pub open spec fn insensitive_matches(q: Seq<char>, contents: Seq<char>) -> Seq<Seq<char>> {
    filter_matching_insensitive(q, spec_lines(contents))
}

/// The case-insensitive match predicate under the ASCII lowercase mapping.
pub open spec fn ascii_insensitive_pred(q: Seq<char>) -> spec_fn(Seq<char>) -> bool {
    |l: Seq<char>| contains_seq(ascii_lower(l), ascii_lower(q))
}

/// The lines of `contents` whose ASCII lowercase form contains the ASCII
/// lowercase form of `q`, in their original order.
pub open spec fn ascii_insensitive_matches(q: Seq<char>, contents: Seq<char>) -> Seq<Seq<char>> {
    spec_lines(contents).filter(ascii_insensitive_pred(q))
}

proof fn lemma_filter_push<A>(s: Seq<A>, pred: spec_fn(A) -> bool, x: A)
    ensures
        s.push(x).filter(pred) == if pred(x) {
            s.filter(pred).push(x)
        } else {
            s.filter(pred)
        },
{
    reveal(Seq::filter);
    assert(s.push(x).drop_last() =~= s);
    assert(s.push(x).last() == x);
}

proof fn lemma_filter_singleton<A>(x: A, pred: spec_fn(A) -> bool)
    ensures
        seq![x].filter(pred) == if pred(x) {
            seq![x]
        } else {
            Seq::<A>::empty()
        },
{
    reveal_with_fuel(Seq::filter, 2);
    assert(seq![x].drop_last() =~= Seq::<A>::empty());
    if pred(x) {
        assert(Seq::<A>::empty().push(x) =~= seq![x]);
    }
}

proof fn lemma_filter_all<A>(s: Seq<A>, pred: spec_fn(A) -> bool)
    requires
        forall|i: int| 0 <= i < s.len() ==> pred(#[trigger] s[i]),
    ensures
        s.filter(pred) == s,
    decreases s.len(),
{
    reveal(Seq::filter);
    if s.len() != 0 {
        lemma_filter_all(s.drop_last(), pred);
        assert(s.drop_last().push(s.last()) =~= s);
    }
}

proof fn lemma_filter_mem<A>(s: Seq<A>, pred: spec_fn(A) -> bool, i: int)
    requires
        0 <= i < s.filter(pred).len(),
    ensures
        s.contains(s.filter(pred)[i]),
    decreases s.len(),
{
    reveal(Seq::filter);
    if s.len() != 0 {
        let dl = s.drop_last();
        if pred(s.last()) && i == s.filter(pred).len() - 1 {
            assert(s[s.len() - 1] == s.filter(pred)[i]);
        } else {
            lemma_filter_mem(dl, pred, i);
            let j = choose|j: int| 0 <= j < dl.len() && dl[j] == dl.filter(pred)[i];
            assert(s[j] == s.filter(pred)[i]);
        }
    }
}

proof fn lemma_filter_len_mono<A>(s: Seq<A>, p1: spec_fn(A) -> bool, p2: spec_fn(A) -> bool)
    requires
        forall|i: int| 0 <= i < s.len() && p1(#[trigger] s[i]) ==> p2(s[i]),
    ensures
        s.filter(p1).len() <= s.filter(p2).len(),
    decreases s.len(),
{
    reveal(Seq::filter);
    if s.len() != 0 {
        let dl = s.drop_last();
        assert forall|i: int| 0 <= i < dl.len() && p1(#[trigger] dl[i]) implies p2(dl[i]) by {
            assert(dl[i] == s[i]);
        }
        lemma_filter_len_mono(dl, p1, p2);
        assert(s[s.len() - 1] == s.last());
    }
}

/// Case-sensitive search: returns exactly the lines of `contents` that
/// contain `query` as a contiguous substring, in their original order.
pub fn search<'a>(query: &str, contents: &'a str) -> (r: Vec<&'a str>)
    ensures
        r.deep_view() == sensitive_matches(query@, contents@),
{
    let lines = split_lines(contents);
    let mut results: Vec<&'a str> = Vec::new();
    proof {
        reveal(Seq::filter);
        assert(spec_lines(contents@).subrange(0, 0) =~= Seq::<Seq<char>>::empty());
        assert(results.deep_view() =~= Seq::<Seq<char>>::empty());
    }
    let mut i: usize = 0;
    while i < lines.len()
        invariant
            lines.deep_view() == spec_lines(contents@),
            i <= lines@.len(),
            results.deep_view() == filter_matching(
                query@,
                spec_lines(contents@).subrange(0, i as int),
            ),
        decreases lines@.len() - i,
    {
        let line = lines[i];
        let ghost pre = results.deep_view();
        let ghost prefix = spec_lines(contents@).subrange(0, i as int);
        proof {
            assert(line@ == lines.deep_view()[i as int]);
        }
        if contains_str(line, query) {
            results.push(line);
        }
        proof {
            assert(spec_lines(contents@).subrange(0, i + 1) =~= prefix.push(line@));
            lemma_filter_push(prefix, matches_pred(query@), line@);
            if contains_seq(line@, query@) {
                assert(results.deep_view() =~= pre.push(line@));
            }
        }
        i += 1;
    }
    proof {
        assert(spec_lines(contents@).subrange(0, lines.deep_view().len() as int) =~= spec_lines(
            contents@,
        ));
    }
    results
}

/// Case-sensitive search in a single pass over the contents, without first
/// collecting the lines.  Returns exactly the lines of `contents` that
/// contain `query` as a contiguous substring, in their original order.
pub fn search_new<'a>(query: &str, contents: &'a str) -> (r: Vec<&'a str>)
    ensures
        r.deep_view() == sensitive_matches(query@, contents@),
{
    let n = contents.unicode_len();
    let mut results: Vec<&'a str> = Vec::new();
    proof {
        assert(contents@.subrange(0, n as int) =~= contents@);
        assert(results.deep_view() =~= Seq::<Seq<char>>::empty());
        assert(results.deep_view() + sensitive_matches(query@, contents@) =~= sensitive_matches(
            query@,
            contents@,
        ));
    }
    let mut start: usize = 0;
    let mut i: usize = 0;
    while i < n
        invariant
            n == contents@.len(),
            start <= i <= n,
            forall|k: int| start <= k < i ==> contents@[k] != '\n',
            sensitive_matches(query@, contents@) == results.deep_view() + filter_matching(
                query@,
                spec_lines(contents@.subrange(start as int, n as int)),
            ),
        decreases n - i,
    {
        if contents.get_char(i) == '\n' {
            let line = contents.substring_char(start, i);
            let matched = contains_str(line, query);
            let ghost pre = results.deep_view();
            if matched {
                results.push(line);
            }
            proof {
                let tail = contents@.subrange(start as int, n as int);
                let suffix = contents@.subrange(i + 1, n as int);
                lemma_lines_split_front(tail, i - start);
                assert(tail.subrange(0, i - start) =~= line@);
                assert(tail.subrange(i - start + 1, tail.len() as int) =~= suffix);
                Seq::<Seq<char>>::filter_distributes_over_add(
                    seq![line@],
                    spec_lines(suffix),
                    matches_pred(query@),
                );
                lemma_filter_singleton(line@, matches_pred(query@));
                if matched {
                    assert(results.deep_view() =~= pre.push(line@));
                    assert(pre + (seq![line@] + filter_matching(query@, spec_lines(suffix)))
                        =~= pre.push(line@) + filter_matching(query@, spec_lines(suffix)));
                } else {
                    assert(pre + (Seq::<Seq<char>>::empty() + filter_matching(
                        query@,
                        spec_lines(suffix),
                    )) =~= pre + filter_matching(query@, spec_lines(suffix)));
                }
            }
            start = i + 1;
        }
        i += 1;
    }
    if start < n {
        let line = contents.substring_char(start, n);
        let matched = contains_str(line, query);
        let ghost pre = results.deep_view();
        if matched {
            results.push(line);
        }
        proof {
            let tail = contents@.subrange(start as int, n as int);
            lemma_lines_whole(tail);
            lemma_filter_singleton(tail, matches_pred(query@));
            if matched {
                assert(results.deep_view() =~= pre.push(line@));
                assert(pre + seq![tail] =~= pre.push(line@));
            } else {
                assert(pre + Seq::<Seq<char>>::empty() =~= pre);
            }
        }
    } else {
        proof {
            reveal(Seq::filter);
            let tail = contents@.subrange(start as int, n as int);
            assert(tail.len() == 0);
            assert(results.deep_view() + filter_matching(query@, spec_lines(tail))
                =~= results.deep_view());
        }
    }
    results
}

/// Case-insensitive search: returns exactly the lines of `contents` whose
/// lowercase form contains the lowercase form of `query`, in their
/// original order and in their original, non-lowercased form.  On ASCII
/// query and contents the lowercase forms are the ASCII ones, and an empty
/// query matches every line.
pub fn search_case_insensitive<'a>(query: &str, contents: &'a str) -> (r: Vec<&'a str>)
    ensures
        r.deep_view() == insensitive_matches(query@, contents@),
        is_ascii_chars(query@) && is_ascii_chars(contents@) ==> r.deep_view()
            == ascii_insensitive_matches(query@, contents@),
        query@.len() == 0 ==> r.deep_view() == spec_lines(contents@),
{
    let query_lower = to_lowercase_str(query);
    let lines = split_lines(contents);
    let mut results: Vec<&'a str> = Vec::new();
    proof {
        reveal(Seq::filter);
        assert(spec_lines(contents@).subrange(0, 0) =~= Seq::<Seq<char>>::empty());
        assert(results.deep_view() =~= Seq::<Seq<char>>::empty());
        if is_ascii_chars(contents@) {
            crate::text::lemma_lines_ascii(contents@);
        }
    }
    let mut i: usize = 0;
    while i < lines.len()
        invariant
            lines.deep_view() == spec_lines(contents@),
            i <= lines@.len(),
            query_lower@ == lower_of(query@),
            query@.len() == 0 ==> query_lower@.len() == 0,
            is_ascii_chars(query@) ==> query_lower@ == ascii_lower(query@),
            is_ascii_chars(contents@) ==> forall|k: int|
                0 <= k < spec_lines(contents@).len() ==> is_ascii_chars(
                    #[trigger] spec_lines(contents@)[k],
                ),
            results.deep_view() == filter_matching_insensitive(
                query@,
                spec_lines(contents@).subrange(0, i as int),
            ),
            is_ascii_chars(query@) && is_ascii_chars(contents@) ==> results.deep_view()
                == spec_lines(contents@).subrange(0, i as int).filter(
                ascii_insensitive_pred(query@),
            ),
            query@.len() == 0 ==> results.deep_view() == spec_lines(contents@).subrange(
                0,
                i as int,
            ),
        decreases lines@.len() - i,
    {
        let line = lines[i];
        let ghost pre = results.deep_view();
        let ghost prefix = spec_lines(contents@).subrange(0, i as int);
        proof {
            assert(line@ == lines.deep_view()[i as int]);
        }
        let line_lower = to_lowercase_str(line);
        let matched = contains_str(line_lower.as_str(), query_lower.as_str());
        if matched {
            results.push(line);
        }
        proof {
            assert(spec_lines(contents@).subrange(0, i + 1) =~= prefix.push(line@));
            lemma_filter_push(prefix, insensitive_pred(query@), line@);
            if matched {
                assert(results.deep_view() =~= pre.push(line@));
            }
            if is_ascii_chars(query@) && is_ascii_chars(contents@) {
                assert(is_ascii_chars(line@));
                assert(matched == contains_seq(ascii_lower(line@), ascii_lower(query@)));
                lemma_filter_push(prefix, ascii_insensitive_pred(query@), line@);
            }
            if query@.len() == 0 {
                assert(line_lower@.subrange(0, 0) =~= query_lower@);
                assert(match_at(line_lower@, query_lower@, 0));
            }
        }
        i += 1;
    }
    proof {
        assert(spec_lines(contents@).subrange(0, lines.deep_view().len() as int) =~= spec_lines(
            contents@,
        ));
    }
    results
}

/// Selects the engine by the configuration's case policy and searches
/// `contents` for the configured query.
pub fn search_with_config<'a>(config: &Config, contents: &'a str) -> (r: Vec<&'a str>)
    ensures
        !config.ignore_case ==> r.deep_view() == sensitive_matches(config.query@, contents@),
        config.ignore_case ==> r.deep_view() == insensitive_matches(config.query@, contents@),
{
    if config.ignore_case {
        search_case_insensitive(config.query.as_str(), contents)
    } else {
        search_new(config.query.as_str(), contents)
    }
}

/// A case-sensitive match survives ASCII lowercasing of both sides.
proof fn lemma_ascii_contains_mono(l: Seq<char>, q: Seq<char>)
    requires
        contains_seq(l, q),
    ensures
        contains_seq(ascii_lower(l), ascii_lower(q)),
{
    let i = choose|i: int| match_at(l, q, i);
    assert(ascii_lower(l).subrange(i, i + ascii_lower(q).len()) =~= ascii_lower(q)) by {
        assert forall|k: int| 0 <= k < q.len() implies ascii_lower(l)[i + k] == ascii_lower(q)[k]
        by {
            assert(l.subrange(i, i + q.len())[k] == l[i + k]);
        }
    }
    assert(match_at(ascii_lower(l), ascii_lower(q), i));
}

/// An empty query matches every line of the contents, so searching for it
/// returns all the lines; empty contents have no lines, so searching them
/// returns nothing, whatever the query.
pub proof fn lemma_empty_query_and_contents(q: Seq<char>, contents: Seq<char>)
    ensures
        q.len() == 0 ==> sensitive_matches(q, contents) == spec_lines(contents),
        contents.len() == 0 ==> sensitive_matches(q, contents) == Seq::<Seq<char>>::empty(),
        contents.len() == 0 ==> insensitive_matches(q, contents) == Seq::<Seq<char>>::empty(),
{
    if q.len() == 0 {
        let lines = spec_lines(contents);
        assert forall|i: int| 0 <= i < lines.len() implies matches_pred(q)(#[trigger] lines[i])
        by {
            assert(lines[i].subrange(0, 0) =~= q);
            assert(match_at(lines[i], q, 0));
        }
        lemma_filter_all(lines, matches_pred(q));
    }
    if contents.len() == 0 {
        reveal(Seq::filter);
    }
}

/// Every line of the case-insensitive result is a line of the contents,
/// unchanged: the engine reports original lines, never lowercased copies.
pub proof fn lemma_insensitive_reports_original_lines(q: Seq<char>, contents: Seq<char>)
    ensures
        forall|i: int|
            0 <= i < insensitive_matches(q, contents).len() ==> spec_lines(contents).contains(
                #[trigger] insensitive_matches(q, contents)[i],
            ),
{
    assert forall|i: int| 0 <= i < insensitive_matches(q, contents).len() implies spec_lines(
        contents,
    ).contains(#[trigger] insensitive_matches(q, contents)[i]) by {
        lemma_filter_mem(spec_lines(contents), insensitive_pred(q), i);
    }
}

/// On ASCII query and contents, case-insensitive search returns at least
/// as many lines as case-sensitive search.  The comparison is stated for
/// the ASCII lowercase mapping, which is what the case-insensitive
/// engine's contract guarantees on ASCII input; Unicode lowercasing of a
/// whole string is context-dependent, so no such bound holds of arbitrary
/// input.
pub proof fn lemma_insensitive_finds_at_least_sensitive(q: Seq<char>, contents: Seq<char>)
    requires
        is_ascii_chars(q),
        is_ascii_chars(contents),
    ensures
        sensitive_matches(q, contents).len() <= ascii_insensitive_matches(q, contents).len(),
{
    let lines = spec_lines(contents);
    assert forall|i: int|
        0 <= i < lines.len() && matches_pred(q)(#[trigger] lines[i]) implies ascii_insensitive_pred(
        q,
    )(lines[i]) by {
        lemma_ascii_contains_mono(lines[i], q);
    }
    lemma_filter_len_mono(lines, matches_pred(q), ascii_insensitive_pred(q));
}

/// Search is a pure function of its inputs: any two results that meet the
/// case-sensitive search contract for the same query and contents are
/// identical, element for element and in the same order.
pub proof fn lemma_search_deterministic(
    q: Seq<char>,
    contents: Seq<char>,
    r1: Seq<Seq<char>>,
    r2: Seq<Seq<char>>,
)
    requires
        r1 == sensitive_matches(q, contents),
        r2 == sensitive_matches(q, contents),
    ensures
        r1 == r2,
{
}

/// The case-insensitive engine is pure in the same way: any two results
/// that meet its contract for the same query and contents are identical.
pub proof fn lemma_insensitive_search_deterministic(
    q: Seq<char>,
    contents: Seq<char>,
    r1: Seq<Seq<char>>,
    r2: Seq<Seq<char>>,
)
    requires
        r1 == insensitive_matches(q, contents),
        r2 == insensitive_matches(q, contents),
    ensures
        r1 == r2,
{
}

} // verus!
