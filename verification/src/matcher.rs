//! The line matcher: given a query and the full text to search, it
//! returns every line that contains the query — trimmed, in original
//! order — comparing either verbatim or after lower-casing both sides.

use vstd::prelude::*;

use crate::config::Config;
use crate::text::contains_substring;
use crate::text::has_substring;
use crate::text::lines_of;
use crate::text::substring_at;
use crate::text::trim_of;
use crate::text::trim_str;

verus! {

/// The lower-cased form of `s`, as `str::to_lowercase` computes it.
pub uninterp spec fn lower_of(s: Seq<char>) -> Seq<char>;

/// Relies on `str::to_lowercase`: its result depends on the input
/// characters alone, and an empty string stays empty.
#[verifier::external_body]
fn lowercase(s: &str) -> (r: String)
    ensures
        r@ == lower_of(s@),
        s@.len() == 0 ==> r@.len() == 0,
{
    s.to_lowercase()
}

/// An already-trimmed line is kept when it contains the query —
/// verbatim in case-sensitive mode, after lower-casing both sides
/// otherwise.
pub open spec fn trimmed_line_matches(
    query: Seq<char>,
    trimmed: Seq<char>,
    case_sensitive: bool,
) -> bool {
    if case_sensitive {
        has_substring(trimmed, query)
    } else {
        has_substring(lower_of(trimmed), lower_of(query))
    }
}

/// A raw line is kept when its trimmed form matches the query.
pub open spec fn line_matches(query: Seq<char>, line: Seq<char>, case_sensitive: bool) -> bool {
    trimmed_line_matches(query, trim_of(line), case_sensitive)
}

/// Every line of `content`, trimmed, in order.
pub open spec fn trimmed_lines(content: Seq<char>) -> Seq<Seq<char>> {
    lines_of(content).map_values(|l: Seq<char>| trim_of(l))
}

/// The trimmed forms of the lines among `lines` that match `query`, in
/// order.
pub open spec fn matches_in(query: Seq<char>, lines: Seq<Seq<char>>, case_sensitive: bool) -> Seq<
    Seq<char>,
>
    decreases lines.len(),
{
    if lines.len() == 0 {
        Seq::empty()
    } else if line_matches(query, lines[0], case_sensitive) {
        seq![trim_of(lines[0])] + matches_in(query, lines.drop_first(), case_sensitive)
    } else {
        matches_in(query, lines.drop_first(), case_sensitive)
    }
}

/// What a search returns: the trimmed matching lines of `content`, in
/// original order.
pub open spec fn search_spec(query: Seq<char>, content: Seq<char>, case_sensitive: bool) -> Seq<
    Seq<char>,
> {
    matches_in(query, lines_of(content), case_sensitive)
}

/// Peels the first line off `matches_in`.
proof fn lemma_matches_step(
    query: Seq<char>,
    line: Seq<char>,
    rest: Seq<Seq<char>>,
    case_sensitive: bool,
)
    ensures
        line_matches(query, line, case_sensitive) ==> matches_in(
            query,
            seq![line] + rest,
            case_sensitive,
        ) == seq![trim_of(line)] + matches_in(query, rest, case_sensitive),
        !line_matches(query, line, case_sensitive) ==> matches_in(
            query,
            seq![line] + rest,
            case_sensitive,
        ) == matches_in(query, rest, case_sensitive),
{
    let ls = seq![line] + rest;
    assert(ls[0] == line);
    assert(ls.drop_first() =~= rest);
}

/// Returns the trimmed lines of `contents` that contain `query`
/// verbatim, in original order.
pub fn search<'a>(query: &str, contents: &'a str) -> (r: Vec<&'a str>)
    ensures
        r.deep_view() == search_spec(query@, contents@, true),
        query@.len() == 0 ==> r.deep_view() == trimmed_lines(contents@),
{
    let n = contents.unicode_len();
    let mut result: Vec<&'a str> = Vec::new();
    let mut pos: usize = 0;
    proof {
        assert(contents@.subrange(0, n as int) =~= contents@);
        assert(result.deep_view() =~= Seq::<Seq<char>>::empty());
        assert(Seq::<Seq<char>>::empty() + search_spec(query@, contents@, true) =~= search_spec(
            query@,
            contents@,
            true,
        ));
    }
    while pos < n
        invariant
            n == contents@.len(),
            pos <= n,
            result.deep_view() + matches_in(
                query@,
                lines_of(contents@.subrange(pos as int, n as int)),
                true,
            ) == search_spec(query@, contents@, true),
        decreases n - pos,
    {
        let mut e: usize = pos;
        while e < n && contents.get_char(e) != '\n'
            invariant
                pos <= e <= n,
                n == contents@.len(),
                forall|i: int| pos <= i < e ==> contents@[i] != '\n',
            decreases n - e,
        {
            e += 1;
        }
        let raw = contents.substring_char(pos, e);
        let line = trim_str(raw);
        let ghost old_dv = result.deep_view();
        let matched = contains_substring(line, query);
        if matched {
            result.push(line);
        }
        let next: usize = if e < n {
            e + 1
        } else {
            n
        };
        proof {
            let c = contents@;
            let l = c.subrange(pos as int, e as int);
            let rest = lines_of(c.subrange(next as int, n as int));
            crate::text::lemma_lines_step(c, pos as int, e as int);
            if e == n {
                assert(c.subrange(next as int, n as int) =~= Seq::<char>::empty());
                assert(seq![l] + rest =~= seq![l]);
            }
            assert(lines_of(c.subrange(pos as int, n as int)) == seq![l] + rest);
            lemma_matches_step(query@, l, rest, true);
            assert(matched == line_matches(query@, l, true));
            if matched {
                assert(result.deep_view() =~= old_dv.push(line@));
                assert(old_dv.push(trim_of(l)) + matches_in(query@, rest, true) =~= old_dv + (
                seq![trim_of(l)] + matches_in(query@, rest, true)));
            }
        }
        pos = next;
    }
    proof {
        assert(contents@.subrange(n as int, n as int) =~= Seq::<char>::empty());
        assert(result.deep_view() + matches_in(query@, lines_of(Seq::<char>::empty()), true)
            =~= result.deep_view());
        if query@.len() == 0 {
            assert(query@ =~= Seq::<char>::empty());
            lemma_empty_query_returns_all_lines(contents@);
        }
    }
    result
}

/// Returns the trimmed lines of `contents` whose lower-cased form
/// contains the lower-cased form of `query`, in original order and in
/// their original casing.
pub fn search_case_insensitive<'a>(query: &str, contents: &'a str) -> (r: Vec<&'a str>)
    ensures
        r.deep_view() == search_spec(query@, contents@, false),
        query@.len() == 0 ==> r.deep_view() == trimmed_lines(contents@),
{
    let lowered_query = lowercase(query);
    let n = contents.unicode_len();
    let mut result: Vec<&'a str> = Vec::new();
    let mut pos: usize = 0;
    proof {
        assert(contents@.subrange(0, n as int) =~= contents@);
        assert(result.deep_view() =~= Seq::<Seq<char>>::empty());
        assert(Seq::<Seq<char>>::empty() + search_spec(query@, contents@, false) =~= search_spec(
            query@,
            contents@,
            false,
        ));
    }
    while pos < n
        invariant
            n == contents@.len(),
            pos <= n,
            lowered_query@ == lower_of(query@),
            result.deep_view() + matches_in(
                query@,
                lines_of(contents@.subrange(pos as int, n as int)),
                false,
            ) == search_spec(query@, contents@, false),
        decreases n - pos,
    {
        let mut e: usize = pos;
        while e < n && contents.get_char(e) != '\n'
            invariant
                pos <= e <= n,
                n == contents@.len(),
                forall|i: int| pos <= i < e ==> contents@[i] != '\n',
            decreases n - e,
        {
            e += 1;
        }
        let raw = contents.substring_char(pos, e);
        let line = trim_str(raw);
        let lowered_line = lowercase(line);
        let ghost old_dv = result.deep_view();
        let matched = contains_substring(lowered_line.as_str(), lowered_query.as_str());
        if matched {
            result.push(line);
        }
        let next: usize = if e < n {
            e + 1
        } else {
            n
        };
        proof {
            let c = contents@;
            let l = c.subrange(pos as int, e as int);
            let rest = lines_of(c.subrange(next as int, n as int));
            crate::text::lemma_lines_step(c, pos as int, e as int);
            if e == n {
                assert(c.subrange(next as int, n as int) =~= Seq::<char>::empty());
                assert(seq![l] + rest =~= seq![l]);
            }
            assert(lines_of(c.subrange(pos as int, n as int)) == seq![l] + rest);
            lemma_matches_step(query@, l, rest, false);
            assert(matched == line_matches(query@, l, false));
            if matched {
                assert(result.deep_view() =~= old_dv.push(line@));
                assert(old_dv.push(trim_of(l)) + matches_in(query@, rest, false) =~= old_dv + (
                seq![trim_of(l)] + matches_in(query@, rest, false)));
            }
        }
        pos = next;
    }
    proof {
        assert(contents@.subrange(n as int, n as int) =~= Seq::<char>::empty());
        assert(result.deep_view() + matches_in(query@, lines_of(Seq::<char>::empty()), false)
            =~= result.deep_view());
        if query@.len() == 0 {
            lemma_lowered_empty_query_matches_all(query@, contents@);
        }
    }
    result
}

/// Runs the search that `config` asks for over `contents`: the
/// case-sensitive matcher when `config.case_sensitive` holds, the
/// case-insensitive one otherwise.
pub fn run_search<'a>(config: &Config, contents: &'a str) -> (r: Vec<&'a str>)
    ensures
        r.deep_view() == search_spec(config.query@, contents@, config.case_sensitive),
{
    if config.case_sensitive {
        search(config.query.as_str(), contents)
    } else {
        search_case_insensitive(config.query.as_str(), contents)
    }
}

/// The search result is a pure function of query, content and mode:
/// two runs on the same inputs return the same sequence.
pub proof fn lemma_search_deterministic(
    query: Seq<char>,
    content: Seq<char>,
    case_sensitive: bool,
    r1: Seq<Seq<char>>,
    r2: Seq<Seq<char>>,
)
    requires
        r1 == search_spec(query, content, case_sensitive),
        r2 == search_spec(query, content, case_sensitive),
    ensures
        r1 == r2,
{
}

/// Empty content has no lines, so a search in it returns the empty
/// sequence, whatever the query and the mode.
pub proof fn lemma_empty_content_no_matches(query: Seq<char>, case_sensitive: bool)
    ensures
        search_spec(query, Seq::empty(), case_sensitive) == Seq::<Seq<char>>::empty(),
{
}

/// When every line matches, the result is every line, trimmed.
proof fn lemma_all_lines_match(query: Seq<char>, lines: Seq<Seq<char>>, case_sensitive: bool)
    requires
        forall|i: int| 0 <= i < lines.len() ==> line_matches(query, lines[i], case_sensitive),
    ensures
        matches_in(query, lines, case_sensitive) == lines.map_values(|l: Seq<char>| trim_of(l)),
    decreases lines.len(),
{
    let f = |l: Seq<char>| trim_of(l);
    if lines.len() == 0 {
        assert(lines.map_values(f) =~= Seq::<Seq<char>>::empty());
    } else {
        assert(line_matches(query, lines[0], case_sensitive));
        lemma_all_lines_match(query, lines.drop_first(), case_sensitive);
        assert(lines.map_values(f) =~= seq![trim_of(lines[0])] + lines.drop_first().map_values(f));
    }
}

/// The empty query is a substring of every line, so a case-sensitive
/// search with it returns every line of the content, trimmed.
pub proof fn lemma_empty_query_returns_all_lines(content: Seq<char>)
    ensures
        search_spec(Seq::empty(), content, true) == trimmed_lines(content),
{
    let lines = lines_of(content);
    assert forall|i: int| 0 <= i < lines.len() implies line_matches(
        Seq::empty(),
        lines[i],
        true,
    ) by {
        assert(trim_of(lines[i]).subrange(0, 0) =~= Seq::<char>::empty());
        assert(substring_at(trim_of(lines[i]), Seq::empty(), 0));
    }
    lemma_all_lines_match(Seq::empty(), lines, true);
}

/// A query whose lower-cased form is empty is a substring of every
/// lower-cased line, so a case-insensitive search with it returns
/// every line of the content, trimmed.
proof fn lemma_lowered_empty_query_matches_all(query: Seq<char>, content: Seq<char>)
    requires
        lower_of(query).len() == 0,
    ensures
        search_spec(query, content, false) == trimmed_lines(content),
{
    let lines = lines_of(content);
    assert forall|i: int| 0 <= i < lines.len() implies line_matches(query, lines[i], false) by {
        assert(lower_of(query) =~= Seq::<char>::empty());
        assert(lower_of(trim_of(lines[i])).subrange(0, 0) =~= Seq::<char>::empty());
        assert(substring_at(lower_of(trim_of(lines[i])), lower_of(query), 0));
    }
    lemma_all_lines_match(query, lines, false);
}

/// `matches_in` is the filter of the trimmed lines by the match
/// predicate.
proof fn lemma_matches_in_is_filter(query: Seq<char>, lines: Seq<Seq<char>>, case_sensitive: bool)
    ensures
        matches_in(query, lines, case_sensitive) == lines.map_values(
            |l: Seq<char>| trim_of(l),
        ).filter(|t: Seq<char>| trimmed_line_matches(query, t, case_sensitive)),
    decreases lines.len(),
{
    reveal(Seq::filter);
    let f = |l: Seq<char>| trim_of(l);
    let p = |t: Seq<char>| trimmed_line_matches(query, t, case_sensitive);
    if lines.len() == 0 {
        assert(lines.map_values(f) =~= Seq::<Seq<char>>::empty());
        assert(Seq::<Seq<char>>::empty().filter(p) == Seq::<Seq<char>>::empty());
    } else {
        lemma_matches_in_is_filter(query, lines.drop_first(), case_sensitive);
        let head = seq![f(lines[0])];
        let tail = lines.drop_first().map_values(f);
        assert(lines.map_values(f) =~= head + tail);
        Seq::<Seq<char>>::filter_distributes_over_add(head, tail, p);
        assert(head.drop_last() =~= Seq::<Seq<char>>::empty());
        assert(Seq::<Seq<char>>::empty().filter(p) == Seq::<Seq<char>>::empty());
        assert(head.last() == f(lines[0]));
        assert(head.filter(p) == if p(f(lines[0])) {
            Seq::<Seq<char>>::empty().push(f(lines[0]))
        } else {
            Seq::<Seq<char>>::empty()
        });
        if p(f(lines[0])) {
            assert(Seq::<Seq<char>>::empty().push(f(lines[0])) =~= head);
        }
    }
}

/// What the matcher returns is exactly a filter: the sequence of all
/// trimmed lines of the content, kept in order and restricted to those
/// that match the query in the given mode.
pub proof fn lemma_search_is_filter(query: Seq<char>, content: Seq<char>, case_sensitive: bool)
    ensures
        search_spec(query, content, case_sensitive) == trimmed_lines(content).filter(
            |t: Seq<char>| trimmed_line_matches(query, t, case_sensitive),
        ),
{
    lemma_matches_in_is_filter(query, lines_of(content), case_sensitive);
}

} // verus!
