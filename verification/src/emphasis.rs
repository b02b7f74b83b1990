//! Emphasis written with underscores.
//!
//! `_italic_`, `__bold__` and `___both___` lose their markers. An underscore inside a word stays, and
//! so does one in code, in an address, in a tag or behind a backslash. Emphasis stays within one
//! paragraph, and within the text of one link.

use crate::literal;
use crate::text;
use vstd::prelude::*;
use vstd::slice::slice_subrange;

verus! {

// ---------------------------------------------------------------- markers

/// Punctuation: that of ASCII, of Latin-1 and the general punctuation of Unicode.
pub open spec fn is_punctuation(c: char) -> bool {
    let n = c as u32;
    ||| 0x21 <= n <= 0x2f
    ||| 0x3a <= n <= 0x40
    ||| 0x5b <= n <= 0x60
    ||| 0x7b <= n <= 0x7e
    ||| n == 0xa1
    ||| n == 0xa7
    ||| n == 0xab
    ||| n == 0xb6
    ||| n == 0xb7
    ||| n == 0xbb
    ||| n == 0xbf
    ||| 0x2010 <= n <= 0x2027
    ||| 0x2030 <= n <= 0x205e
}

/// A character of a word: neither white space nor punctuation.
pub open spec fn in_word(c: char) -> bool {
    !text::is_white(c) && !is_punctuation(c)
}

/// Exactly `m` underscores stand at `i`, with no underscore beside them.
pub open spec fn run_at(s: Seq<char>, i: int, m: int) -> bool {
    &&& 0 <= i
    &&& 0 < m
    &&& i + m <= s.len()
    &&& forall|k: int| i <= k < i + m ==> s[k] == '_'
    &&& i > 0 ==> s[i - 1] != '_'
    &&& i + m < s.len() ==> s[i + m] != '_'
}

/// The `m` characters at `i` are all that keeps a `]` and a `(` apart.
///
/// Without them the two would begin the address of a link.
pub open spec fn parts_brackets(s: Seq<char>, i: int, m: int) -> bool {
    0 < i && i + m < s.len() && s[i - 1] == ']' && s[i + m] == '('
}

/// The underscores at `i` open an emphasis: they stand before a character that is no white space,
/// and not behind a word.
pub open spec fn opens(s: Seq<char>, i: int, m: int) -> bool {
    &&& run_at(s, i, m)
    &&& i + m < s.len()
    &&& !text::is_white(s[i + m])
    &&& i > 0 ==> !in_word(s[i - 1])
    &&& !parts_brackets(s, i, m)
    &&& !literal::literal(s, i)
}

/// The underscores at `i` close an emphasis: they stand behind a character that is no white space,
/// and not before a word.
pub open spec fn closes(s: Seq<char>, i: int, m: int) -> bool {
    &&& run_at(s, i, m)
    &&& i > 0
    &&& !text::is_white(s[i - 1])
    &&& i + m < s.len() ==> !in_word(s[i + m])
    &&& !parts_brackets(s, i, m)
    &&& !literal::literal(s, i)
}

// ---------------------------------------------------------------- paragraphs

/// White space or the end of the text stands at `k`.
pub open spec fn gap_at(s: Seq<char>, k: int) -> bool {
    k >= s.len() || text::is_white(s[k])
}

/// From `k` on, the number of a list item goes on and ends.
pub open spec fn number_ends(s: Seq<char>, k: int) -> bool
    decreases s.len() - k,
{
    if k >= s.len() {
        false
    } else if text::is_digit(s[k]) {
        number_ends(s, k + 1)
    } else {
        (s[k] == '.' || s[k] == ')') && gap_at(s, k + 1)
    }
}

/// A line that begins at `k`, white space aside, begins a block: a quote, a table, a heading, a list
/// item, a rule or a fence.
pub open spec fn starts_block(s: Seq<char>, k: int) -> bool {
    let c = s[k];
    ||| c == '>'
    ||| c == '|'
    ||| (c == '#' || c == '-' || c == '+' || c == '*') && gap_at(s, k + 1)
    ||| (c == '#' || c == '-' || c == '=') && k + 1 < s.len() && s[k + 1] == c
    ||| c == '`' && k + 2 < s.len() && s[k + 1] == '`' && s[k + 2] == '`'
    ||| text::is_digit(c) && number_ends(s, k + 1)
}

/// The line that begins at `k` does not go on with the paragraph before it: it is blank, or it begins
/// a block.
pub open spec fn ends_paragraph(s: Seq<char>, k: int) -> bool
    decreases s.len() - k,
{
    if k >= s.len() || s[k] == '\n' {
        true
    } else if text::is_white(s[k]) {
        ends_paragraph(s, k + 1)
    } else {
        starts_block(s, k)
    }
}

/// The paragraph ends with the line whose end stands at `k`.
pub open spec fn paragraph_ends(s: Seq<char>, k: int) -> bool {
    s[k] == '\n' && ends_paragraph(s, k + 1)
}

/// No paragraph ends between `i` and `j`.
pub open spec fn same_paragraph(s: Seq<char>, i: int, j: int) -> bool {
    forall|k: int| i <= k < j ==> !#[trigger] paragraph_ends(s, k)
}

// ---------------------------------------------------------------- texts of links

/// The last square bracket before `i`.
pub open spec fn bracket_before(s: Seq<char>, i: int) -> Option<int>
    decreases i,
{
    if i <= 0 || i > s.len() {
        None
    } else if s[i - 1] == '[' || s[i - 1] == ']' {
        Some(i - 1)
    } else {
        bracket_before(s, i - 1)
    }
}

/// The first square bracket at or after `i`.
pub open spec fn bracket_after(s: Seq<char>, i: int) -> Option<int>
    decreases s.len() - i,
{
    if i < 0 || i >= s.len() {
        None
    } else if s[i] == '[' || s[i] == ']' {
        Some(i)
    } else {
        bracket_after(s, i + 1)
    }
}

/// Where the text of the link ends that `i` lies in; `None` outside such texts.
pub open spec fn link_text_end(s: Seq<char>, i: int) -> Option<int> {
    match bracket_before(s, i) {
        Some(p) => match bracket_after(s, i) {
            Some(b) => if s[p] == '[' && s[b] == ']' && b + 1 < s.len() && s[b + 1] == '('
                && literal::in_address(s, b + 2) {
                Some(b)
            } else {
                None
            },
            None => None,
        },
        None => None,
    }
}

// ---------------------------------------------------------------- pairs

/// The markers at `a` and `b` belong together.
pub open spec fn pairs(s: Seq<char>, a: int, b: int, m: int) -> bool {
    &&& opens(s, a, m)
    &&& closes(s, b, m)
    &&& a + m <= b
    &&& same_paragraph(s, a + m, b)
    &&& link_text_end(s, a) == link_text_end(s, b)
}

/// Where the first marker at or after `from` stands that closes the one at `a`.
pub open spec fn partner(s: Seq<char>, a: int, m: int, from: int) -> Option<int>
    decreases s.len() - from,
{
    if from >= s.len() || paragraph_ends(s, from) {
        None
    } else if closes(s, from, m) && link_text_end(s, a) == link_text_end(s, from) {
        Some(from)
    } else {
        partner(s, a, m, from + 1)
    }
}

/// The first two markers of `m` underscores that belong together, the first of them at or after
/// `from`.
pub open spec fn first_pair(s: Seq<char>, m: int, from: int) -> Option<(int, int)>
    decreases s.len() - from,
{
    if from >= s.len() {
        None
    } else if opens(s, from, m) && partner(s, from, m, from + m) is Some {
        Some((from, partner(s, from, m, from + m)->0))
    } else {
        first_pair(s, m, from + 1)
    }
}

/// `s` without its first pair of markers of `m` underscores; `None` if it has no pair.
pub open spec fn pair_dropped(s: Seq<char>, m: int) -> Option<Seq<char>> {
    match first_pair(s, m, 0) {
        Some(p) => Some(s.take(p.0) + s.subrange(p.0 + m, p.1) + s.skip(p.1 + m)),
        None => None,
    }
}

/// `s` without its first pair of markers, the longest markers first; `None` if it has no pair.
pub open spec fn first_emphasis_dropped(s: Seq<char>) -> Option<Seq<char>> {
    match pair_dropped(s, 3) {
        Some(t) => Some(t),
        None => match pair_dropped(s, 2) {
            Some(t) => Some(t),
            None => pair_dropped(s, 1),
        },
    }
}

/// `s` without its pairs of markers, dropped one by one until no pair is left.
pub open spec fn emphasis_dropped(s: Seq<char>) -> Seq<char>
    decreases s.len(),
{
    match first_emphasis_dropped(s) {
        Some(t) => if t.len() < s.len() {
            emphasis_dropped(t)
        } else {
            t
        },
        None => s,
    }
}

/// No two markers belong together.
pub open spec fn no_emphasis(s: Seq<char>) -> bool {
    forall|a: int, b: int, m: int| 1 <= m <= 3 ==> !#[trigger] pairs(s, a, b, m)
}

// ---------------------------------------------------------------- what the definitions give

proof fn lemma_partner(s: Seq<char>, a: int, m: int, from: int)
    requires
        0 <= from,
    ensures
        match partner(s, a, m, from) {
            Some(b) => from <= b < s.len() && closes(s, b, m) && same_paragraph(s, from, b)
                && link_text_end(s, a) == link_text_end(s, b) && forall|k: int|
                from <= k < b ==> !(#[trigger] closes(s, k, m) && link_text_end(s, a)
                    == link_text_end(s, k)),
            None => forall|k: int| #[trigger]
                closes(s, k, m) && from <= k && same_paragraph(s, from, k) ==> link_text_end(s, a)
                    != link_text_end(s, k),
        },
    decreases s.len() - from,
{
    if from >= s.len() {
    } else if paragraph_ends(s, from) {
        assert forall|k: int| #[trigger]
            closes(s, k, m) && from <= k && same_paragraph(s, from, k) implies link_text_end(s, a)
            != link_text_end(s, k) by {
            if k == from {
                assert(s[k] == '_');
            }
        }
    } else if closes(s, from, m) && link_text_end(s, a) == link_text_end(s, from) {
    } else {
        lemma_partner(s, a, m, from + 1);
        if partner(s, a, m, from) is None {
            assert forall|k: int| #[trigger]
                closes(s, k, m) && from <= k && same_paragraph(s, from, k) implies link_text_end(
                s,
                a,
            ) != link_text_end(s, k) by {
                assert(same_paragraph(s, from + 1, k));
            }
        } else {
            let b = partner(s, a, m, from)->0;
            assert(same_paragraph(s, from, b)) by {
                assert forall|k: int| from <= k < b implies !#[trigger] paragraph_ends(s, k) by {}
            }
        }
    }
}

/// The first pair is a pair, and none comes before it.
pub proof fn lemma_first_pair(s: Seq<char>, m: int, from: int)
    requires
        0 <= from,
        0 < m,
    ensures
        match first_pair(s, m, from) {
            Some(p) => {
                &&& from <= p.0
                &&& pairs(s, p.0, p.1, m)
                &&& forall|a: int, b: int| from <= a < p.0 ==> !#[trigger] pairs(s, a, b, m)
                &&& forall|b: int| b < p.1 ==> !#[trigger] pairs(s, p.0, b, m)
            },
            None => forall|a: int, b: int| from <= a ==> !#[trigger] pairs(s, a, b, m),
        },
    decreases s.len() - from,
{
    if from < s.len() {
        lemma_partner(s, from, m, from + m);
        if opens(s, from, m) && partner(s, from, m, from + m) is Some {
        } else {
            lemma_first_pair(s, m, from + 1);
        }
    }
}

/// There is only one pair before which none comes.
pub proof fn lemma_pair_is_first(s: Seq<char>, m: int, a: int, b: int)
    requires
        0 < m,
        pairs(s, a, b, m),
        forall|x: int, y: int| x < a ==> !#[trigger] pairs(s, x, y, m),
        forall|y: int| y < b ==> !#[trigger] pairs(s, a, y, m),
    ensures
        first_pair(s, m, 0) == Some((a, b)),
{
    lemma_first_pair(s, m, 0);
    let p = first_pair(s, m, 0)->0;
    assert(pairs(s, p.0, p.1, m));
}

/// The markers that are dropped first: where the two stand, and their length.
pub proof fn lemma_emphasis_dropped(s: Seq<char>) -> (p: (int, int, int))
    requires
        first_emphasis_dropped(s) is Some,
    ensures
        1 <= p.2 <= 3,
        pairs(s, p.0, p.1, p.2),
        p.0 + p.2 < p.1,
        first_emphasis_dropped(s) == Some(
            s.take(p.0) + s.subrange(p.0 + p.2, p.1) + s.skip(p.1 + p.2),
        ),
        first_emphasis_dropped(s)->0.len() + 2 * p.2 == s.len(),
{
    let m: int = if pair_dropped(s, 3) is Some {
        3
    } else if pair_dropped(s, 2) is Some {
        2
    } else {
        1
    };
    lemma_first_pair(s, m, 0);
    let p = first_pair(s, m, 0)->0;
    assert(s[p.1] == '_');
    (p.0, p.1, m)
}

/// Something is dropped if and only if two markers belong together.
pub proof fn lemma_dropped_is_emphasis(s: Seq<char>)
    ensures
        first_emphasis_dropped(s) is None <==> no_emphasis(s),
        first_emphasis_dropped(s) matches Some(t) ==> t.len() < s.len(),
{
    if first_emphasis_dropped(s) is None {
        lemma_first_pair(s, 3, 0);
        lemma_first_pair(s, 2, 0);
        lemma_first_pair(s, 1, 0);
        assert forall|a: int, b: int, m: int| 1 <= m <= 3 implies !#[trigger] pairs(s, a, b, m) by {
            assert(m == 1 || m == 2 || m == 3);
        }
    } else {
        let p = lemma_emphasis_dropped(s);
        assert(pairs(s, p.0, p.1, p.2));
    }
}

// ---------------------------------------------------------------- laws

/// After the pairs are dropped no two markers belong together.
pub proof fn no_emphasis_is_left(s: Seq<char>)
    ensures
        no_emphasis(emphasis_dropped(s)),
    decreases s.len(),
{
    lemma_dropped_is_emphasis(s);
    if let Some(t) = first_emphasis_dropped(s) {
        no_emphasis_is_left(t);
    }
}

/// A text without emphasis is kept.
pub proof fn text_without_emphasis_is_kept(s: Seq<char>)
    requires
        no_emphasis(s),
    ensures
        emphasis_dropped(s) == s,
{
    lemma_dropped_is_emphasis(s);
}

/// A text whose underscores all stand in code, in an address, in a tag or behind a backslash is kept.
pub proof fn literal_underscores_are_kept(s: Seq<char>)
    requires
        forall|i: int| 0 <= i < s.len() && #[trigger] s[i] == '_' ==> literal::literal(s, i),
    ensures
        emphasis_dropped(s) == s,
{
    assert forall|a: int, b: int, m: int| 1 <= m <= 3 implies !#[trigger] pairs(s, a, b, m) by {
        if pairs(s, a, b, m) {
            assert(s[a] == '_');
        }
    }
    text_without_emphasis_is_kept(s);
}

/// A text without underscores is kept.
pub proof fn text_without_underscores_is_kept(s: Seq<char>)
    requires
        !s.contains('_'),
    ensures
        emphasis_dropped(s) == s,
{
    literal_underscores_are_kept(s);
}

/// Underscores with a letter, a digit or another character of a word on both sides are kept.
pub proof fn underscores_in_words_are_kept(s: Seq<char>)
    requires
        forall|i: int, m: int| #[trigger]
            run_at(s, i, m) ==> 0 < i && i + m < s.len() && in_word(s[i - 1]) && in_word(s[i + m]),
    ensures
        emphasis_dropped(s) == s,
{
    assert forall|a: int, b: int, m: int| 1 <= m <= 3 implies !#[trigger] pairs(s, a, b, m) by {
        if pairs(s, a, b, m) {
            assert(run_at(s, a, m));
        }
    }
    text_without_emphasis_is_kept(s);
}

/// Dropping markers brings no character in, and takes nothing out but underscores.
pub proof fn only_underscores_are_dropped(s: Seq<char>, d: char)
    ensures
        emphasis_dropped(s).contains(d) ==> s.contains(d),
        d != '_' ==> text::count(emphasis_dropped(s), d) == text::count(s, d),
    decreases s.len(),
{
    lemma_dropped_is_emphasis(s);
    if let Some(t) = first_emphasis_dropped(s) {
        let p = lemma_emphasis_dropped(s);
        let m = p.2;
        let before = s.take(p.0);
        let inner = s.subrange(p.0 + m, p.1);
        let tail = s.skip(p.1 + m);
        let mark = s.subrange(p.0, p.0 + m);
        let end = s.subrange(p.1, p.1 + m);
        assert(t == before + inner + tail);
        if t.contains(d) {
            let k = choose|k: int| 0 <= k < t.len() && t[k] == d;
            let f = came_from(k, p.0, p.1, m);
            assert(s[f] == d);
        }
        if d != '_' {
            assert(s =~= before + mark + inner + end + tail);
            text::lemma_count_absent(mark, d);
            text::lemma_count_absent(end, d);
            text::lemma_count_add(before, mark, d);
            text::lemma_count_add(before + mark, inner, d);
            text::lemma_count_add(before + mark + inner, end, d);
            text::lemma_count_add(before + mark + inner + end, tail, d);
            text::lemma_count_add(before, inner, d);
            text::lemma_count_add(before + inner, tail, d);
        }
        only_underscores_are_dropped(t, d);
    }
}

/// A marker of `m` underscores.
pub open spec fn marker(m: nat) -> Seq<char> {
    Seq::new(m, |i: int| '_')
}

/// The underscores of `s` are two markers, at `a` and at `b`.
spec fn two_markers(s: Seq<char>, a: int, b: int, m: int) -> bool {
    forall|i: int|
        0 <= i < s.len() ==> ((#[trigger] s[i]) == '_' <==> a <= i < a + m || b <= i < b + m)
}

proof fn lemma_two_markers(before: Seq<char>, inner: Seq<char>, after: Seq<char>, m: nat)
    requires
        !before.contains('_') && !inner.contains('_') && !after.contains('_'),
    ensures
        two_markers(
            before + marker(m) + inner + marker(m) + after,
            before.len() as int,
            (before.len() + m + inner.len()) as int,
            m as int,
        ),
{
    let s = before + marker(m) + inner + marker(m) + after;
    let a = before.len() as int;
    let b = a + m + inner.len();
    assert forall|i: int| 0 <= i < s.len() implies ((#[trigger] s[i]) == '_' <==> a <= i < a + m
        || b <= i < b + m) by {
        if i < a {
            assert(before.contains(before[i]));
        } else if a + m <= i < b {
            assert(inner.contains(inner[i - a - m]));
        } else if b + m <= i {
            assert(after.contains(after[i - b - m]));
        }
    }
}

proof fn lemma_only_runs(s: Seq<char>, a: int, b: int, m: int, i: int, k: int)
    requires
        two_markers(s, a, b, m),
        0 <= a,
        0 < m,
        a + m < b,
        b + m <= s.len(),
        run_at(s, i, k),
    ensures
        k == m,
        i == a || i == b,
{
    assert(s[i] == '_');
    assert(s[i + k - 1] == '_');
    assert(s[a + m] != '_');
    assert(s[a] == '_' && s[a + m - 1] == '_' && s[b] == '_' && s[b + m - 1] == '_');
    if i < a + m && i + k > a + m {
        assert(s[a + m] == '_');
    }
}

/// With two markers alone that belong together, those two are dropped.
proof fn lemma_two_markers_dropped(s: Seq<char>, a: int, b: int, m: int)
    requires
        1 <= m <= 3,
        two_markers(s, a, b, m),
        a + m < b,
        pairs(s, a, b, m),
    ensures
        first_emphasis_dropped(s) == Some(s.take(a) + s.subrange(a + m, b) + s.skip(b + m)),
{
    assert forall|x: int, y: int, k: int| #[trigger] pairs(s, x, y, k) implies k == m && x == a && y
        == b by {
        lemma_only_runs(s, a, b, m, x, k);
        lemma_only_runs(s, a, b, m, y, k);
    }
    lemma_pair_is_first(s, m, a, b);
    lemma_first_pair(s, 3, 0);
    lemma_first_pair(s, 2, 0);
}

/// A character that begins no marker, code, address, tag, escape or link and ends no line.
pub open spec fn is_quiet(c: char) -> bool {
    c != '_' && c != '`' && c != '\\' && c != '<' && c != '/' && c != '[' && c != ']' && c != '\n'
}

/// The text has no character but quiet ones and underscores.
pub open spec fn unbroken(s: Seq<char>) -> bool {
    forall|i: int| 0 <= i < s.len() ==> is_quiet(#[trigger] s[i]) || s[i] == '_'
}

proof fn lemma_unbroken(s: Seq<char>, i: int)
    requires
        unbroken(s),
        0 <= i <= s.len(),
    ensures
        !literal::address_open(s, i),
        !literal::scheme_before(s, i),
        !literal::tag_open(s, i),
        !literal::escaped(s, i),
        bracket_before(s, i) is None,
    decreases i,
{
    if i > 0 {
        assert(is_quiet(s[i - 1]) || s[i - 1] == '_');
        if i > 1 {
            assert(is_quiet(s[i - 2]) || s[i - 2] == '_');
        }
        lemma_unbroken(s, i - 1);
    }
}

proof fn lemma_no_code(s: Seq<char>, from: int, i: int)
    requires
        !s.contains('`'),
    ensures
        !literal::in_code_from(s, from, i),
    decreases s.len() - from,
{
    if 0 <= from < s.len() {
        assert(s.contains(s[from]));
        lemma_no_code(s, from + 1, i);
    }
}

/// Without backticks there is no code.
pub proof fn lemma_no_ticks_no_code(s: Seq<char>, i: int)
    requires
        !s.contains('`'),
    ensures
        !literal::in_code(s, i),
{
    lemma_no_code(s, 0, i);
}

/// A text of quiet characters and underscores is one paragraph in which nothing is taken literally and
/// no link stands, so that markers belong together by what touches them alone.
pub proof fn unbroken_text_is_one_paragraph(s: Seq<char>, i: int, j: int)
    requires
        unbroken(s),
        0 <= i <= j <= s.len(),
    ensures
        !literal::literal(s, i),
        link_text_end(s, i) is None,
        same_paragraph(s, i, j),
{
    if s.contains('`') {
        let k = choose|k: int| 0 <= k < s.len() && s[k] == '`';
        assert(is_quiet(s[k]) || s[k] == '_');
    }
    lemma_unbroken(s, i);
    lemma_no_ticks_no_code(s, i);
    assert forall|k: int| i <= k < j implies !#[trigger] paragraph_ends(s, k) by {
        assert(is_quiet(s[k]) || s[k] == '_');
    }
}

/// A text between two markers, with what stands before and after it, loses the markers. The markers
/// touch it, and no word touches them from outside.
pub proof fn emphasised_text_loses_its_markers(
    before: Seq<char>,
    inner: Seq<char>,
    after: Seq<char>,
    m: nat,
)
    requires
        1 <= m <= 3,
        forall|i: int| 0 <= i < before.len() ==> is_quiet(#[trigger] before[i]),
        forall|i: int| 0 <= i < inner.len() ==> is_quiet(#[trigger] inner[i]),
        forall|i: int| 0 <= i < after.len() ==> is_quiet(#[trigger] after[i]),
        inner.len() > 0,
        !text::is_white(inner[0]) && !text::is_white(inner.last()),
        before.len() > 0 ==> !in_word(before.last()),
        after.len() > 0 ==> !in_word(after[0]),
    ensures
        emphasis_dropped(before + marker(m) + inner + marker(m) + after) == before + inner + after,
{
    let s = before + marker(m) + inner + marker(m) + after;
    let t = before + inner + after;
    let a = before.len() as int;
    let b = a + m + inner.len();
    lemma_two_markers(before, inner, after, m);
    assert(unbroken(s));
    unbroken_text_is_one_paragraph(s, a, b);
    unbroken_text_is_one_paragraph(s, b, b);
    unbroken_text_is_one_paragraph(s, a + m, b);
    assert(s[a + m] == inner[0]);
    assert(s[b - 1] == inner.last());
    assert(a > 0 ==> s[a - 1] == before.last() && is_quiet(before[a - 1]));
    assert(b + m < s.len() ==> s[b + m] == after[0]);
    assert(is_quiet(inner[inner.len() - 1]));
    assert(pairs(s, a, b, m as int));
    lemma_two_markers_dropped(s, a, b, m as int);
    assert(s.take(a) + s.subrange(a + m, b) + s.skip(b + m) =~= t);
    assert forall|k: int| 0 <= k < t.len() implies is_quiet(#[trigger] t[k]) by {
        if k < a {
            assert(t[k] == before[k]);
        } else if k < a + inner.len() {
            assert(t[k] == inner[k - a]);
        } else {
            assert(t[k] == after[k - a - inner.len()]);
        }
    }
    text_without_underscores_is_kept(t);
}

/// Where the character at `k` stood before the markers at `a` and `b` were dropped.
pub open spec fn came_from(k: int, a: int, b: int, m: int) -> int {
    if k < a {
        k
    } else if k < b - m {
        k + m
    } else {
        k + 2 * m
    }
}

/// The brackets of a link stand in order: `[` at `a`, `](` at `b` and `)` at `c`.
pub open spec fn link_at(s: Seq<char>, a: int, b: int, c: int) -> bool {
    &&& 0 <= a < b
    &&& b + 2 <= c < s.len()
    &&& s[a] == '['
    &&& s[b] == ']'
    &&& s[b + 1] == '('
    &&& s[c] == ')'
}

/// Dropping markers makes no link.
pub proof fn no_link_is_made(s: Seq<char>)
    requires
        forall|a: int, b: int, c: int| !#[trigger] link_at(s, a, b, c),
    ensures
        forall|a: int, b: int, c: int| !#[trigger] link_at(emphasis_dropped(s), a, b, c),
    decreases s.len(),
{
    lemma_dropped_is_emphasis(s);
    if let Some(t) = first_emphasis_dropped(s) {
        let p = lemma_emphasis_dropped(s);
        let m = p.2;
        assert forall|a: int, b: int, c: int| !#[trigger] link_at(t, a, b, c) by {
            if link_at(t, a, b, c) {
                let fa = came_from(a, p.0, p.1, m);
                let fb = came_from(b, p.0, p.1, m);
                let next = came_from(b + 1, p.0, p.1, m);
                let fc = came_from(c, p.0, p.1, m);
                assert(s[fa] == '[' && s[fb] == ']' && s[next] == '(' && s[fc] == ')');
                if next != fb + 1 {
                    assert(parts_brackets(s, p.0, m) || parts_brackets(s, p.1, m));
                }
                assert(link_at(s, fa, fb, fc));
            }
        }
        no_link_is_made(t);
        assert(emphasis_dropped(s) == emphasis_dropped(t));
    }
}

// ---------------------------------------------------------------- executable code

fn word_char(c: char) -> (r: bool)
    ensures
        r == in_word(c),
{
    let n: u32 = c as u32;
    !text::white(c) && !((0x21 <= n && n <= 0x2f) || (0x3a <= n && n <= 0x40) || (0x5b <= n && n
        <= 0x60) || (0x7b <= n && n <= 0x7e) || n == 0xa1 || n == 0xa7 || n == 0xab || n == 0xb6 || n
        == 0xb7 || n == 0xbb || n == 0xbf || (0x2010 <= n && n <= 0x2027) || (0x2030 <= n && n
        <= 0x205e))
}

fn run_stands(s: &[char], i: usize, m: usize) -> (r: bool)
    requires
        i <= s@.len(),
    ensures
        r == run_at(s@, i as int, m as int),
{
    let n: usize = s.len();
    if m == 0 || m > n - i {
        return false;
    }
    let mut k: usize = 0;
    while k < m
        invariant
            0 < m,
            n == s@.len(),
            i + m <= n,
            k <= m,
            forall|j: int| i <= j < i + k ==> s@[j] == '_',
        decreases m - k,
    {
        if s[i + k] != '_' {
            return false;
        }
        k = k + 1;
    }
    !(i > 0 && s[i - 1] == '_') && !(i + m < n && s[i + m] == '_')
}

fn brackets_part(s: &[char], i: usize, m: usize) -> (r: bool)
    requires
        i + m <= s@.len(),
    ensures
        r == parts_brackets(s@, i as int, m as int),
{
    let n: usize = s.len();
    0 < i && i + m < n && s[i - 1] == ']' && s[i + m] == '('
}

fn can_open(s: &[char], i: usize, m: usize) -> (r: bool)
    requires
        i <= s@.len(),
    ensures
        r == opens(s@, i as int, m as int),
{
    let n: usize = s.len();
    run_stands(s, i, m) && i + m < n && !text::white(s[i + m]) && !(i > 0 && word_char(s[i - 1]))
        && !brackets_part(s, i, m) && !literal::is_literal(s, i)
}

fn can_close(s: &[char], i: usize, m: usize) -> (r: bool)
    requires
        i <= s@.len(),
    ensures
        r == closes(s@, i as int, m as int),
{
    let n: usize = s.len();
    run_stands(s, i, m) && i > 0 && !text::white(s[i - 1]) && !(i + m < n && word_char(s[i + m]))
        && !brackets_part(s, i, m) && !literal::is_literal(s, i)
}

fn is_gap(s: &[char], k: usize) -> (r: bool)
    ensures
        r == gap_at(s@, k as int),
{
    k >= s.len() || text::white(s[k])
}

fn block_begins(s: &[char], k: usize) -> (r: bool)
    requires
        k < s@.len(),
    ensures
        r == starts_block(s@, k as int),
{
    let n: usize = s.len();
    let c = s[k];
    if c == '>' || c == '|' {
        return true;
    }
    if (c == '#' || c == '-' || c == '+' || c == '*') && is_gap(s, k + 1) {
        return true;
    }
    if (c == '#' || c == '-' || c == '=') && k + 1 < n && s[k + 1] == c {
        return true;
    }
    if c == '`' {
        return n - k > 2 && s[k + 1] == '`' && s[k + 2] == '`';
    }
    if !('0' <= c && c <= '9') {
        return false;
    }
    let mut j: usize = k + 1;
    while j < n && '0' <= s[j] && s[j] <= '9'
        invariant
            n == s@.len(),
            k < j <= n,
            number_ends(s@, k + 1) == number_ends(s@, j as int),
        decreases n - j,
    {
        j = j + 1;
    }
    j < n && (s[j] == '.' || s[j] == ')') && is_gap(s, j + 1)
}

fn ends_here(s: &[char], k: usize) -> (r: bool)
    requires
        k < s@.len(),
    ensures
        r == paragraph_ends(s@, k as int),
{
    if s[k] != '\n' {
        return false;
    }
    let n: usize = s.len();
    let mut j: usize = k + 1;
    while j < n && s[j] != '\n' && text::white(s[j])
        invariant
            n == s@.len(),
            k < j <= n,
            ends_paragraph(s@, k + 1) == ends_paragraph(s@, j as int),
        decreases n - j,
    {
        j = j + 1;
    }
    j >= n || s[j] == '\n' || block_begins(s, j)
}

fn find_link_text_end(s: &[char], i: usize) -> (r: Option<usize>)
    requires
        i <= s@.len(),
    ensures
        match r {
            Some(b) => link_text_end(s@, i as int) == Some(b as int),
            None => link_text_end(s@, i as int) is None,
        },
{
    let n: usize = s.len();
    let mut p: usize = i;
    while p > 0 && s[p - 1] != '[' && s[p - 1] != ']'
        invariant
            p <= s@.len(),
            bracket_before(s@, i as int) == bracket_before(s@, p as int),
        decreases p,
    {
        p = p - 1;
    }
    if p == 0 || s[p - 1] != '[' {
        return None;
    }
    let mut b: usize = i;
    while b < n && s[b] != '[' && s[b] != ']'
        invariant
            n == s@.len(),
            b <= n,
            bracket_after(s@, i as int) == bracket_after(s@, b as int),
        decreases n - b,
    {
        b = b + 1;
    }
    if b < n && s[b] == ']' && b + 1 < n && s[b + 1] == '(' && literal::lies_in_address(s, b + 2) {
        Some(b)
    } else {
        None
    }
}

fn same_end(a: Option<usize>, b: Option<usize>) -> (r: bool)
    ensures
        r == (a == b),
{
    match a {
        Some(x) => match b {
            Some(y) => x == y,
            None => false,
        },
        None => b.is_none(),
    }
}

fn find_partner(s: &[char], a: usize, m: usize) -> (r: Option<usize>)
    requires
        a + m <= s@.len(),
    ensures
        match r {
            Some(b) => partner(s@, a as int, m as int, a + m) == Some(b as int),
            None => partner(s@, a as int, m as int, a + m) is None,
        },
{
    let n: usize = s.len();
    let home = find_link_text_end(s, a);
    let mut k: usize = a + m;
    while k < n
        invariant
            n == s@.len(),
            a + m <= k <= n,
            match home {
                Some(b) => link_text_end(s@, a as int) == Some(b as int),
                None => link_text_end(s@, a as int) is None,
            },
            partner(s@, a as int, m as int, a + m) == partner(s@, a as int, m as int, k as int),
        decreases n - k,
    {
        if ends_here(s, k) {
            return None;
        }
        if can_close(s, k, m) && same_end(home, find_link_text_end(s, k)) {
            return Some(k);
        }
        k = k + 1;
    }
    None
}

fn drop_pair(s: &[char], m: usize) -> (r: Option<Vec<char>>)
    requires
        0 < m,
    ensures
        match r {
            Some(t) => pair_dropped(s@, m as int) == Some(t@),
            None => pair_dropped(s@, m as int) is None,
        },
{
    let n: usize = s.len();
    let mut a: usize = 0;
    while a < n
        invariant
            n == s@.len(),
            0 < m,
            a <= n,
            first_pair(s@, m as int, 0) == first_pair(s@, m as int, a as int),
        decreases n - a,
    {
        if can_open(s, a, m) {
            if let Some(b) = find_partner(s, a, m) {
                proof {
                    lemma_first_pair(s@, m as int, 0);
                }
                let mut out: Vec<char> = Vec::new();
                text::extend(&mut out, slice_subrange(s, 0, a));
                text::extend(&mut out, slice_subrange(s, a + m, b));
                text::extend(&mut out, slice_subrange(s, b + m, n));
                assert(out@ =~= pair_dropped(s@, m as int)->0);
                return Some(out);
            }
        }
        a = a + 1;
    }
    None
}

/// Drops the markers of `_italic_`, `__bold__` and `___both___`.
pub fn drop_emphasis(s: Vec<char>) -> (r: Vec<char>)
    ensures
        r@ == emphasis_dropped(s@),
{
    let mut cur: Vec<char> = s;
    loop
        invariant
            emphasis_dropped(cur@) == emphasis_dropped(s@),
        decreases cur@.len(),
    {
        proof {
            lemma_dropped_is_emphasis(cur@);
        }
        let next: Option<Vec<char>> = match drop_pair(cur.as_slice(), 3) {
            Some(t) => Some(t),
            None => match drop_pair(cur.as_slice(), 2) {
                Some(t) => Some(t),
                None => drop_pair(cur.as_slice(), 1),
            },
        };
        match next {
            Some(t) => {
                cur = t;
            },
            None => {
                return cur;
            },
        }
    }
}

} // verus!
