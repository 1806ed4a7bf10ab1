//! The mathematical model of the text operations the matcher is built
//! on — whitespace, trimming, substring containment and line splitting
//! — together with their verified executable counterparts.

use vstd::prelude::*;

verus! {

/// A whitespace character: exactly the characters with the Unicode
/// `White_Space` property.
pub open spec fn is_space(c: char) -> bool {
    let u = c as u32;
    (9 <= u && u <= 13) || u == 32 || u == 0x85 || u == 0xA0 || u == 0x1680 || (0x2000 <= u && u
        <= 0x200A) || u == 0x2028 || u == 0x2029 || u == 0x202F || u == 0x205F || u == 0x3000
}

/// Decides `is_space` on a concrete character.
fn is_space_char(c: char) -> (r: bool)
    ensures
        r == is_space(c),
{
    let u = c as u32;
    (9 <= u && u <= 13) || u == 32 || u == 0x85 || u == 0xA0 || u == 0x1680 || (0x2000 <= u && u
        <= 0x200A) || u == 0x2028 || u == 0x2029 || u == 0x202F || u == 0x205F || u == 0x3000
}

/// `pat` occurs in `text` starting at position `i`.
pub open spec fn substring_at(text: Seq<char>, pat: Seq<char>, i: int) -> bool {
    &&& 0 <= i
    &&& i + pat.len() <= text.len()
    &&& text.subrange(i, i + pat.len() as int) == pat
}

/// `pat` occurs somewhere in `text` as a contiguous substring.
pub open spec fn has_substring(text: Seq<char>, pat: Seq<char>) -> bool {
    exists|i: int| substring_at(text, pat, i)
}

/// Compares `pat` against `text` at position `i`, character by character.
fn match_at(text: &str, pat: &str, i: usize) -> (r: bool)
    requires
        i + pat@.len() <= text@.len(),
        text@.len() <= usize::MAX,
    ensures
        r == substring_at(text@, pat@, i as int),
{
    let m = pat.unicode_len();
    let mut j: usize = 0;
    while j < m
        invariant
            i + m <= text@.len() <= usize::MAX,
            m == pat@.len(),
            j <= m,
            forall|t: int| 0 <= t < j ==> text@[i + t] == pat@[t],
        decreases m - j,
    {
        if text.get_char(i + j) != pat.get_char(j) {
            proof {
                if substring_at(text@, pat@, i as int) {
                    assert(text@.subrange(i as int, i + m as int)[j as int] == text@[i + j]);
                }
            }
            return false;
        }
        j += 1;
    }
    proof {
        assert(text@.subrange(i as int, i + m as int) =~= pat@);
    }
    true
}

/// Reports whether `pat` occurs in `text` as a contiguous substring.
pub fn contains_substring(text: &str, pat: &str) -> (r: bool)
    ensures
        r == has_substring(text@, pat@),
{
    let n = text.unicode_len();
    let m = pat.unicode_len();
    if m > n {
        return false;
    }
    if m == 0 {
        proof {
            assert(text@.subrange(0, 0) =~= pat@);
            assert(substring_at(text@, pat@, 0));
        }
        return true;
    }
    let mut i: usize = 0;
    while i <= n - m
        invariant
            0 < m <= n,
            n == text@.len(),
            m == pat@.len(),
            i <= n - m + 1,
            forall|k: int| 0 <= k < i ==> !substring_at(text@, pat@, k),
        decreases n - m - i + 1,
    {
        if match_at(text, pat, i) {
            return true;
        }
        i += 1;
    }
    false
}

/// `s` with its leading whitespace removed.
pub open spec fn trim_start_of(s: Seq<char>) -> Seq<char>
    decreases s.len(),
{
    if s.len() > 0 && is_space(s[0]) {
        trim_start_of(s.drop_first())
    } else {
        s
    }
}

/// `s` with its trailing whitespace removed.
pub open spec fn trim_end_of(s: Seq<char>) -> Seq<char>
    decreases s.len(),
{
    if s.len() > 0 && is_space(s.last()) {
        trim_end_of(s.drop_last())
    } else {
        s
    }
}

/// `s` with both leading and trailing whitespace removed.
pub open spec fn trim_of(s: Seq<char>) -> Seq<char> {
    trim_end_of(trim_start_of(s))
}

/// If the first `k` characters of `s` are whitespace and the one after
/// them, if any, is not, then trimming the start of `s` keeps exactly
/// the suffix from `k` on.
proof fn lemma_trim_start_range(s: Seq<char>, k: int)
    requires
        0 <= k <= s.len(),
        forall|i: int| 0 <= i < k ==> is_space(s[i]),
        k == s.len() || !is_space(s[k]),
    ensures
        trim_start_of(s) == s.subrange(k, s.len() as int),
    decreases k,
{
    if k == 0 {
        assert(s.subrange(0, s.len() as int) =~= s);
    } else {
        lemma_trim_start_range(s.drop_first(), k - 1);
        assert(s.drop_first().subrange(k - 1, s.drop_first().len() as int) =~= s.subrange(
            k,
            s.len() as int,
        ));
    }
}

/// If the characters of `s` from `k` on are whitespace and the one
/// before them, if any, is not, then trimming the end of `s` keeps
/// exactly the prefix up to `k`.
proof fn lemma_trim_end_range(s: Seq<char>, k: int)
    requires
        0 <= k <= s.len(),
        forall|i: int| k <= i < s.len() ==> is_space(s[i]),
        k == 0 || !is_space(s[k - 1]),
    ensures
        trim_end_of(s) == s.subrange(0, k),
    decreases s.len() - k,
{
    if k == s.len() {
        assert(s.subrange(0, k) =~= s);
    } else {
        lemma_trim_end_range(s.drop_last(), k);
        assert(s.drop_last().subrange(0, k) =~= s.subrange(0, k));
    }
}

/// Returns the slice of `s` with leading and trailing whitespace
/// removed.
pub fn trim_str<'a>(s: &'a str) -> (r: &'a str)
    ensures
        r@ == trim_of(s@),
{
    let n = s.unicode_len();
    let mut ts: usize = 0;
    while ts < n && is_space_char(s.get_char(ts))
        invariant
            n == s@.len(),
            ts <= n,
            forall|i: int| 0 <= i < ts ==> is_space(s@[i]),
        decreases n - ts,
    {
        ts += 1;
    }
    let mut te: usize = n;
    while te > ts && is_space_char(s.get_char(te - 1))
        invariant
            ts <= te <= n,
            n == s@.len(),
            forall|i: int| te <= i < n ==> is_space(s@[i]),
        decreases te,
    {
        te -= 1;
    }
    proof {
        lemma_trim_start_range(s@, ts as int);
        let suffix = s@.subrange(ts as int, n as int);
        lemma_trim_end_range(suffix, te - ts);
        assert(suffix.subrange(0, te - ts) =~= s@.subrange(ts as int, te as int));
    }
    s.substring_char(ts, te)
}

/// The position of the first line break in `s`, or `s.len()` if there
/// is none.
pub open spec fn find_newline(s: Seq<char>) -> nat
    decreases s.len(),
{
    if s.len() == 0 {
        0
    } else if s[0] == '\n' {
        0
    } else {
        1 + find_newline(s.drop_first())
    }
}

/// The lines of `s`: the segments between line breaks, the break
/// characters themselves excluded. Text after the last break forms a
/// final line only if it is non-empty, so a trailing break adds no
/// empty line.
pub open spec fn lines_of(s: Seq<char>) -> Seq<Seq<char>>
    decreases s.len(),
{
    if s.len() == 0 {
        Seq::empty()
    } else {
        let i = find_newline(s);
        if i < s.len() {
            seq![s.subrange(0, i as int)] + lines_of(s.subrange(i as int + 1, s.len() as int))
        } else {
            seq![s]
        }
    }
}

/// `find_newline` returns the position whose prefix is free of line
/// breaks and which, inside `s`, holds one.
proof fn lemma_find_newline_at(s: Seq<char>, k: int)
    requires
        0 <= k <= s.len(),
        forall|i: int| 0 <= i < k ==> s[i] != '\n',
        k == s.len() || s[k] == '\n',
    ensures
        find_newline(s) == k,
    decreases k,
{
    if k > 0 {
        lemma_find_newline_at(s.drop_first(), k - 1);
    }
}

/// Splitting off one line: if `s[pos..e]` is free of line breaks and
/// `e` sits on a break or at the end, the lines of `s[pos..]` are that
/// segment followed by the lines of the rest.
pub(crate) proof fn lemma_lines_step(s: Seq<char>, pos: int, e: int)
    requires
        0 <= pos <= e <= s.len(),
        pos < s.len(),
        forall|i: int| pos <= i < e ==> s[i] != '\n',
        e == s.len() || s[e] == '\n',
    ensures
        e < s.len() ==> lines_of(s.subrange(pos, s.len() as int)) == seq![s.subrange(pos, e)]
            + lines_of(s.subrange(e + 1, s.len() as int)),
        e == s.len() ==> lines_of(s.subrange(pos, s.len() as int)) == seq![s.subrange(pos, e)],
{
    let rest = s.subrange(pos, s.len() as int);
    assert forall|i: int| 0 <= i < e - pos implies rest[i] != '\n' by {
        assert(rest[i] == s[pos + i]);
    }
    lemma_find_newline_at(rest, e - pos);
    if e < s.len() {
        assert(rest.subrange(0, e - pos) =~= s.subrange(pos, e));
        assert(rest.subrange(e - pos + 1, rest.len() as int) =~= s.subrange(
            e + 1,
            s.len() as int,
        ));
    } else {
        assert(rest =~= s.subrange(pos, e));
    }
}

} // verus!
