//! What holds of the characters that are taken literally, and of the markers that are not, in terms of
//! what stands around them.

use crate::emphasis;
use crate::literal;
use crate::text;
use vstd::prelude::*;

verus! {

// ---------------------------------------------------------------- code

/// A row of backticks.
pub open spec fn ticks(n: nat) -> Seq<char> {
    Seq::new(n, |i: int| '`')
}

proof fn lemma_ticks_behind(p: Seq<char>, r: Seq<char>, i: int)
    requires
        0 <= i <= r.len(),
    ensures
        literal::ticks_at(p + r, p.len() + i) == literal::ticks_at(r, i),
    decreases r.len() - i,
{
    if i < r.len() {
        assert((p + r)[p.len() + i] == r[i]);
        if r[i] == '`' {
            lemma_ticks_behind(p, r, i + 1);
        }
    }
}

proof fn lemma_closing_behind(p: Seq<char>, r: Seq<char>, n: nat, from: int)
    requires
        0 <= from <= r.len(),
    ensures
        literal::closing_ticks(p + r, n, p.len() + from) == match literal::closing_ticks(
            r,
            n,
            from,
        ) {
            Some(j) => Some(p.len() + j),
            None => None,
        },
    decreases r.len() - from,
{
    if from < r.len() {
        lemma_ticks_behind(p, r, from);
        let k = literal::ticks_at(r, from);
        literal::lemma_ticks_at(r, from);
        literal::lemma_ticks_at(p + r, p.len() + from);
        if k == 0 {
            lemma_closing_behind(p, r, n, from + 1);
        } else if k != n {
            lemma_closing_behind(p, r, n, from + k);
        }
    }
}

proof fn lemma_code_behind(p: Seq<char>, r: Seq<char>, from: int, i: int)
    requires
        0 <= from <= r.len(),
    ensures
        literal::in_code_from(p + r, p.len() + from, p.len() + i) == literal::in_code_from(
            r,
            from,
            i,
        ),
    decreases r.len() - from,
{
    let s = p + r;
    let n = p.len() as int;
    if from < r.len() && from <= i {
        lemma_ticks_behind(p, r, from);
        let k = literal::ticks_at(r, from);
        literal::lemma_ticks_at(r, from);
        if k == 0 {
            lemma_code_behind(p, r, from + 1, i);
        } else {
            lemma_closing_behind(p, r, k, from + k);
            literal::lemma_closing_ticks(r, k, from + k);
            literal::lemma_closing_ticks(s, k, n + from + k);
            match literal::closing_ticks(r, k, from + k) {
                Some(j) => {
                    if i >= j + k {
                        lemma_code_behind(p, r, j + k, i);
                    }
                },
                None => {
                    if k < 3 {
                        lemma_code_behind(p, r, from + k, i);
                    }
                },
            }
        }
    }
}

proof fn lemma_no_code_before(s: Seq<char>, from: int, to: int, i: int)
    requires
        0 <= from <= to <= s.len(),
        forall|k: int| from <= k < to ==> #[trigger] s[k] != '`',
    ensures
        i < to ==> !literal::in_code_from(s, from, i),
        i >= to ==> literal::in_code_from(s, from, i) == literal::in_code_from(s, to, i),
    decreases to - from,
{
    if from < to {
        assert(s[from] != '`');
        assert(literal::ticks_at(s, from) == 0);
        lemma_no_code_before(s, from + 1, to, i);
    }
}

/// A text without backticks is no code, and what follows it is code as it would be by itself.
pub proof fn text_before_backticks_is_no_code(p: Seq<char>, r: Seq<char>, i: int)
    requires
        !p.contains('`'),
    ensures
        i < p.len() ==> !literal::in_code(p + r, i),
        i >= p.len() ==> literal::in_code(p + r, i) == literal::in_code(r, i - p.len()),
{
    let s = p + r;
    assert forall|k: int| 0 <= k < p.len() implies #[trigger] s[k] != '`' by {
        assert(p.contains(p[k]));
    }
    lemma_no_code_before(s, 0, p.len() as int, i);
    if i >= p.len() {
        lemma_code_behind(p, r, 0, i - p.len());
    }
}

proof fn lemma_row(s: Seq<char>, i: int, n: nat)
    requires
        0 <= i,
        i + n <= s.len(),
        forall|k: int| i <= k < i + n ==> #[trigger] s[k] == '`',
        i + n == s.len() || s[i + n] != '`',
    ensures
        literal::ticks_at(s, i) == n,
    decreases n,
{
    if n > 0 {
        assert(s[i] == '`');
        lemma_row(s, i + 1, (n - 1) as nat);
    }
}

proof fn lemma_closing_row(s: Seq<char>, n: nat, from: int, to: int)
    requires
        0 <= from <= to <= s.len(),
        forall|k: int| from <= k < to ==> #[trigger] s[k] != '`',
        to < s.len() ==> literal::ticks_at(s, to) == n && n > 0,
    ensures
        to < s.len() ==> literal::closing_ticks(s, n, from) == Some(to),
        to == s.len() ==> literal::closing_ticks(s, n, from) is None,
    decreases to - from,
{
    if from < to {
        assert(s[from] != '`');
        assert(literal::ticks_at(s, from) == 0);
        lemma_closing_row(s, n, from + 1, to);
    }
}

/// What stands between two rows of as many backticks is code, with the rows, and what follows is code
/// as it would be by itself. Behind three backticks or more that nothing closes all is code; behind
/// fewer nothing is.
pub proof fn text_between_backticks_is_code(c: Seq<char>, n: nat, r: Seq<char>, i: int)
    requires
        n > 0,
        c.len() > 0,
        !c.contains('`'),
        r.len() == 0 || r[0] != '`',
        0 <= i,
    ensures
        ({
            let s = ticks(n) + c + ticks(n) + r;
            let end = 2 * n + c.len();
            &&& i < end ==> literal::in_code(s, i)
            &&& i >= end ==> literal::in_code(s, i) == literal::in_code(r, i - end)
        }),
        i < n + c.len() ==> literal::in_code(ticks(n) + c, i) == (n >= 3),
{
    let s = ticks(n) + c + ticks(n) + r;
    let j = (n + c.len()) as int;
    let end = j + n;
    assert forall|k: int| n <= k < j implies #[trigger] s[k] != '`' by {
        assert(s[k] == c[k - n]);
        assert(c.contains(c[k - n]));
    }
    assert(s[n as int] == c[0] && c.contains(c[0]));
    lemma_row(s, 0, n);
    assert(end < s.len() ==> s[end] == r[0]);
    lemma_row(s, j, n);
    lemma_closing_row(s, n, n as int, j);
    if i >= end {
        let p = ticks(n) + c + ticks(n);
        assert(p.len() == end);
        lemma_code_behind(p, r, 0, i - end);
    }
    let t = ticks(n) + c;
    assert forall|k: int| n <= k < t.len() implies #[trigger] t[k] != '`' by {
        assert(t[k] == c[k - n]);
        assert(c.contains(c[k - n]));
    }
    assert(t[n as int] == c[0]);
    lemma_row(t, 0, n);
    lemma_closing_row(t, n, n as int, t.len() as int);
    if i < t.len() && n < 3 {
        lemma_no_code_before(t, n as int, t.len() as int, i);
    }
}

/// The backticks from `i` up to `e` are all that stand in a row there.
pub open spec fn row_of_ticks(s: Seq<char>, i: int, e: int) -> bool {
    &&& 0 <= i < e <= s.len()
    &&& forall|k: int| i <= k < e ==> #[trigger] s[k] == '`'
    &&& e == s.len() || s[e] != '`'
}

/// Code is looked for row by row: a row is closed by the next row of the same length, and rows of
/// other lengths between them are code; without such a row three backticks or more make code of all
/// that follows, and fewer make none.
pub proof fn code_is_found_row_by_row(s: Seq<char>, from: int, e: int, n: nat, i: int)
    requires
        row_of_ticks(s, from, e),
        i >= from,
    ensures
        literal::closing_ticks(s, n, from) == if n == e - from {
            Some(from)
        } else {
            literal::closing_ticks(s, n, e)
        },
        literal::in_code_from(s, from, i) == match literal::closing_ticks(
            s,
            (e - from) as nat,
            e,
        ) {
            Some(j) => i < j + (e - from) || literal::in_code_from(s, j + (e - from), i),
            None => e - from >= 3 || literal::in_code_from(s, e, i),
        },
{
    lemma_row(s, from, (e - from) as nat);
    literal::lemma_ticks_at(s, from);
    literal::lemma_closing_ticks(s, (e - from) as nat, e);
}

// ---------------------------------------------------------------- addresses

/// A `](` stands at `a`, before `i`, and no `)` between them.
pub open spec fn opened_at(s: Seq<char>, a: int, i: int) -> bool {
    &&& 0 <= a
    &&& a + 2 <= i <= s.len()
    &&& s[a] == ']'
    &&& s[a + 1] == '('
    &&& forall|k: int| a + 2 <= k < i ==> #[trigger] s[k] != ')'
}

proof fn lemma_address_open(s: Seq<char>, i: int)
    ensures
        literal::address_open(s, i) <==> exists|a: int| #[trigger] opened_at(s, a, i),
    decreases i,
{
    if 0 < i <= s.len() {
        lemma_address_open(s, i - 1);
        if i >= 2 && s[i - 2] == ']' && s[i - 1] == '(' {
            assert(opened_at(s, i - 2, i));
        }
        if s[i - 1] != ')' && exists|a: int| #[trigger] opened_at(s, a, i - 1) {
            let a = choose|a: int| #[trigger] opened_at(s, a, i - 1);
            assert(opened_at(s, a, i));
        }
        if exists|a: int| #[trigger] opened_at(s, a, i) {
            let a = choose|a: int| #[trigger] opened_at(s, a, i);
            if a + 2 < i {
                assert(s[i - 1] != ')');
                assert(opened_at(s, a, i - 1));
            }
        }
    }
}

/// The address of a link is what stands between `](` and the next `)`.
pub proof fn addresses_stand_in_parentheses(s: Seq<char>, i: int)
    requires
        0 <= i <= s.len(),
    ensures
        literal::in_address(s, i) <==> ((exists|a: int| #[trigger] opened_at(s, a, i)) && exists|c: int|
            i <= c < s.len() && #[trigger] s[c] == ')'),
{
    lemma_address_open(s, i);
    let rest = s.skip(i);
    if rest.contains(')') {
        let k = choose|k: int| 0 <= k < rest.len() && rest[k] == ')';
        assert(s[i + k] == ')');
    }
    if exists|c: int| i <= c < s.len() && #[trigger] s[c] == ')' {
        let c = choose|c: int| i <= c < s.len() && #[trigger] s[c] == ')';
        assert(rest[c - i] == ')');
    }
}

/// A `://` stands at `a`, before `i`, and nothing between them that ends an address: white space, a
/// square bracket that closes, or an angle bracket that does.
pub open spec fn begun_at(s: Seq<char>, a: int, i: int) -> bool {
    &&& 0 <= a
    &&& a + 3 <= i <= s.len()
    &&& s[a] == ':'
    &&& s[a + 1] == '/'
    &&& s[a + 2] == '/'
    &&& forall|k: int|
        a + 3 <= k < i ==> !text::is_white(#[trigger] s[k]) && s[k] != ']' && s[k] != '>'
}

proof fn lemma_scheme(s: Seq<char>, i: int)
    ensures
        literal::scheme_before(s, i) <==> exists|a: int| #[trigger] begun_at(s, a, i),
    decreases i,
{
    if 0 < i <= s.len() {
        lemma_scheme(s, i - 1);
        if i >= 3 && s[i - 3] == ':' && s[i - 2] == '/' && s[i - 1] == '/' {
            assert(begun_at(s, i - 3, i));
        }
        if !literal::ends_address(s[i - 1]) && exists|a: int| #[trigger] begun_at(s, a, i - 1) {
            let a = choose|a: int| #[trigger] begun_at(s, a, i - 1);
            assert(begun_at(s, a, i));
        }
        if exists|a: int| #[trigger] begun_at(s, a, i) {
            let a = choose|a: int| #[trigger] begun_at(s, a, i);
            if a + 3 < i {
                assert(s[i - 1] != ']');
                assert(begun_at(s, a, i - 1));
            }
        }
    }
}

/// From `i` up to `e`, where the address ends, only marks of the sentence stand.
pub open spec fn fades_out(s: Seq<char>, i: int, e: int) -> bool {
    &&& i <= e <= s.len()
    &&& e < s.len() ==> text::is_white(s[e]) || s[e] == ']' || s[e] == '>'
    &&& forall|k: int|
        i <= k < e ==> seq!['_', '*', '~', '.', ',', ':', ';', '!', '?', ')', '`'].contains(
            #[trigger] s[k],
        )
}

proof fn lemma_marks(c: char)
    ensures
        literal::is_trailing(c) == seq!['_', '*', '~', '.', ',', ':', ';', '!', '?', ')', '`'].contains(
            c,
        ),
{
    let marks = seq!['_', '*', '~', '.', ',', ':', ';', '!', '?', ')', '`'];
    assert(marks[0] == '_' && marks[1] == '*' && marks[2] == '~' && marks[3] == '.');
    assert(marks[4] == ',' && marks[5] == ':' && marks[6] == ';' && marks[7] == '!');
    assert(marks[8] == '?' && marks[9] == ')' && marks[10] == '`');
}

proof fn lemma_trails(s: Seq<char>, i: int)
    requires
        0 <= i <= s.len(),
    ensures
        literal::trails(s, i) <==> exists|e: int| #[trigger] fades_out(s, i, e),
    decreases s.len() - i,
{
    if i == s.len() || literal::ends_address(s[i]) {
        assert(fades_out(s, i, i));
    } else {
        lemma_trails(s, i + 1);
        lemma_marks(s[i]);
        if literal::trails(s, i) {
            let e = choose|e: int| #[trigger] fades_out(s, i + 1, e);
            assert(fades_out(s, i, e));
        }
        if exists|e: int| #[trigger] fades_out(s, i, e) {
            let e = choose|e: int| #[trigger] fades_out(s, i, e);
            assert(e > i);
            assert(fades_out(s, i + 1, e));
        }
    }
}

/// An address in the text begins behind `://` and goes on to white space or a closing bracket, but
/// for the marks of the sentence at its end.
pub proof fn addresses_stand_in_the_text(s: Seq<char>, i: int)
    requires
        0 <= i <= s.len(),
    ensures
        literal::in_plain_address(s, i) <==> ((exists|a: int| #[trigger] begun_at(s, a, i)) && !exists|e: int| #[trigger]
            fades_out(s, i, e)),
{
    lemma_scheme(s, i);
    lemma_trails(s, i);
}

// ---------------------------------------------------------------- tags and escapes

/// The last angle bracket before `i` is a `<`, at `a`, with a letter or a slash behind it.
pub open spec fn tagged_at(s: Seq<char>, a: int, i: int) -> bool {
    &&& 0 <= a < i < s.len()
    &&& s[a] == '<'
    &&& ('a' <= s[a + 1] <= 'z' || 'A' <= s[a + 1] <= 'Z' || s[a + 1] == '/')
    &&& forall|k: int| a < k < i ==> #[trigger] s[k] != '<' && s[k] != '>'
}

proof fn lemma_tag_open(s: Seq<char>, i: int, j: int)
    requires
        0 <= i <= j < s.len(),
        forall|k: int| i <= k < j ==> #[trigger] s[k] != '<' && s[k] != '>',
    ensures
        literal::tag_open(s, i) <==> exists|a: int| #[trigger] tagged_at(s, a, j) && a < i,
    decreases i,
{
    if i > 0 {
        if s[i - 1] == '>' {
            if exists|a: int| #[trigger] tagged_at(s, a, j) && a < i {
                let a = choose|a: int| #[trigger] tagged_at(s, a, j) && a < i;
                assert(a < i - 1);
                assert(s[i - 1] != '>');
            }
        } else if s[i - 1] == '<' {
            if literal::tag_open(s, i) {
                assert(tagged_at(s, i - 1, j));
            }
            if exists|a: int| #[trigger] tagged_at(s, a, j) && a < i {
                let a = choose|a: int| #[trigger] tagged_at(s, a, j) && a < i;
                if a < i - 1 {
                    assert(s[i - 1] != '<');
                }
            }
        } else {
            lemma_tag_open(s, i - 1, j);
            if exists|a: int| #[trigger] tagged_at(s, a, j) && a < i - 1 {
                let a = choose|a: int| #[trigger] tagged_at(s, a, j) && a < i - 1;
                assert(tagged_at(s, a, j) && a < i);
            }
            if exists|a: int| #[trigger] tagged_at(s, a, j) && a < i {
                let a = choose|a: int| #[trigger] tagged_at(s, a, j) && a < i;
                assert(s[a] == '<');
                assert(tagged_at(s, a, j) && a < i - 1);
            }
        }
    }
}

/// The first angle or square bracket from `i` on is a `>`, at `e`.
pub open spec fn closed_at(s: Seq<char>, i: int, e: int) -> bool {
    &&& i <= e < s.len()
    &&& s[e] == '>'
    &&& forall|k: int|
        i <= k < e ==> #[trigger] s[k] != '<' && s[k] != '>' && s[k] != '[' && s[k] != ']'
}

proof fn lemma_tag_closed(s: Seq<char>, i: int)
    requires
        0 <= i <= s.len(),
    ensures
        literal::tag_closed(s, i) <==> exists|e: int| #[trigger] closed_at(s, i, e),
    decreases s.len() - i,
{
    if i < s.len() {
        lemma_tag_closed(s, i + 1);
        if s[i] == '>' {
            assert(closed_at(s, i, i));
        } else {
            if literal::tag_closed(s, i) {
                let e = choose|e: int| #[trigger] closed_at(s, i + 1, e);
                assert(closed_at(s, i, e));
            }
            if exists|e: int| #[trigger] closed_at(s, i, e) {
                let e = choose|e: int| #[trigger] closed_at(s, i, e);
                assert(e > i);
                assert(s[i] != '<' && s[i] != '[' && s[i] != ']');
                assert(closed_at(s, i + 1, e));
            }
        }
    }
}

/// A tag goes from a `<` with a letter or a slash behind it to the next `>`, with no bracket between.
pub proof fn tags_stand_in_angle_brackets(s: Seq<char>, i: int)
    requires
        0 <= i < s.len(),
    ensures
        literal::in_tag(s, i) <==> ((exists|a: int| #[trigger] tagged_at(s, a, i)) && exists|e: int| #[trigger]
            closed_at(s, i, e)),
{
    lemma_tag_open(s, i, i);
    lemma_tag_closed(s, i);
    if exists|a: int| #[trigger] tagged_at(s, a, i) {
        let a = choose|a: int| #[trigger] tagged_at(s, a, i);
        assert(tagged_at(s, a, i) && a < i);
    }
}

/// A character is escaped if the row of backslashes before it is odd.
pub proof fn odd_backslashes_escape(s: Seq<char>, i: int, n: nat)
    requires
        n <= i <= s.len(),
        forall|k: int| i - n <= k < i ==> #[trigger] s[k] == '\\',
        i - n == 0 || s[i - n - 1] != '\\',
    ensures
        literal::escaped(s, i) == (n % 2 == 1),
    decreases n,
{
    if n > 0 {
        assert(s[i - 1] == '\\');
        odd_backslashes_escape(s, i - 1, (n - 1) as nat);
    }
}

/// What is taken literally is code, an address, a tag or an escaped character.
pub proof fn literal_is_one_of_these(s: Seq<char>, i: int)
    ensures
        literal::literal(s, i) == (literal::in_code(s, i) || literal::in_address(s, i)
            || literal::in_plain_address(s, i) || literal::in_tag(s, i) || literal::escaped(s, i)),
{
}

// ---------------------------------------------------------------- markers

/// Letters and digits are of words, and so is what is neither white space nor punctuation; the
/// punctuation of ASCII is not.
pub proof fn words_are_made_of_letters(c: char)
    ensures
        'a' <= c <= 'z' || 'A' <= c <= 'Z' || '0' <= c <= '9' ==> emphasis::in_word(c),
        text::is_white(c) ==> !emphasis::in_word(c),
        '!' <= c <= '/' || ':' <= c <= '@' || '[' <= c <= '`' || '{' <= c <= '~'
            ==> !emphasis::in_word(c),
        '\u{c0}' <= c <= '\u{167f}' ==> emphasis::in_word(c),
        '\u{3040}' <= c <= '\u{10ffff}' ==> emphasis::in_word(c),
{
}

/// Exactly so many underscores stand there.
pub open spec fn is_row(s: Seq<char>, i: int, m: int) -> bool {
    &&& 0 <= i && 0 < m && i + m <= s.len()
    &&& s.subrange(i, i + m) == emphasis::marker(m as nat)
    &&& i == 0 || s[i - 1] != '_'
    &&& i + m == s.len() || s[i + m] != '_'
}

proof fn lemma_is_row(s: Seq<char>, i: int, m: int)
    ensures
        emphasis::run_at(s, i, m) == is_row(s, i, m),
{
    if 0 <= i && 0 < m && i + m <= s.len() {
        let part = s.subrange(i, i + m);
        let row = emphasis::marker(m as nat);
        if emphasis::run_at(s, i, m) {
            assert(part =~= row);
        }
        if part == row {
            assert forall|k: int| i <= k < i + m implies s[k] == '_' by {
                assert(part[k - i] == row[k - i]);
            }
        }
    }
}

/// The row does not part the text of a link from its address.
pub open spec fn no_link_parted(s: Seq<char>, i: int, m: int) -> bool {
    !(i > 0 && i + m < s.len() && s[i - 1] == ']' && s[i + m] == '(')
}

/// Two rows of as many underscores belong together if the first touches what follows it and stands
/// behind no word, the second touches what precedes it and stands before no word, neither is taken
/// literally, and no paragraph and no text of a link ends between them.
pub proof fn markers_belong_together(s: Seq<char>, a: int, b: int, m: int)
    ensures
        emphasis::pairs(s, a, b, m) <==> {
            &&& is_row(s, a, m) && is_row(s, b, m) && a + m <= b
            &&& a + m < s.len() && !text::is_white(s[a + m])
            &&& a == 0 || !emphasis::in_word(s[a - 1])
            &&& b > 0 && !text::is_white(s[b - 1])
            &&& b + m == s.len() || !emphasis::in_word(s[b + m])
            &&& no_link_parted(s, a, m) && no_link_parted(s, b, m)
            &&& !literal::literal(s, a) && !literal::literal(s, b)
            &&& forall|k: int| a + m <= k < b ==> !#[trigger] emphasis::paragraph_ends(s, k)
            &&& emphasis::link_text_end(s, a) == emphasis::link_text_end(s, b)
        },
{
    lemma_is_row(s, a, m);
    lemma_is_row(s, b, m);
}

/// Markers go two by two: where none belong together nothing is dropped, else the longest that do,
/// the first of them with the nearest that closes it, and nothing besides, before what is left is
/// looked at again.
pub proof fn markers_are_dropped_two_by_two(s: Seq<char>) -> (p: (int, int, int))
    ensures
        emphasis::no_emphasis(s) ==> emphasis::emphasis_dropped(s) == s,
        !emphasis::no_emphasis(s) ==> {
            &&& 1 <= p.2 <= 3
            &&& emphasis::pairs(s, p.0, p.1, p.2)
            &&& forall|a: int, b: int, m: int|
                p.2 < m <= 3 ==> !#[trigger] emphasis::pairs(s, a, b, m)
            &&& forall|a: int, b: int| a < p.0 ==> !#[trigger] emphasis::pairs(s, a, b, p.2)
            &&& forall|b: int| b < p.1 ==> !#[trigger] emphasis::pairs(s, p.0, b, p.2)
            &&& emphasis::emphasis_dropped(s) == emphasis::emphasis_dropped(
                s.subrange(0, p.0) + s.subrange(p.0 + p.2, p.1) + s.subrange(
                    p.1 + p.2,
                    s.len() as int,
                ),
            )
        },
{
    if emphasis::no_emphasis(s) {
        emphasis::text_without_emphasis_is_kept(s);
        (0, 0, 0)
    } else {
        emphasis::lemma_dropped_is_emphasis(s);
        emphasis::lemma_first_pair(s, 3, 0);
        emphasis::lemma_first_pair(s, 2, 0);
        emphasis::lemma_first_pair(s, 1, 0);
        let m: int = if emphasis::pair_dropped(s, 3) is Some {
            3
        } else if emphasis::pair_dropped(s, 2) is Some {
            2
        } else {
            1
        };
        let q = emphasis::first_pair(s, m, 0)->0;
        assert forall|a: int, b: int, k: int| m < k <= 3 implies !#[trigger] emphasis::pairs(
            s,
            a,
            b,
            k,
        ) by {
            assert(k == 2 || k == 3);
        }
        assert(s.take(q.0) =~= s.subrange(0, q.0));
        assert(s.skip(q.1 + m) =~= s.subrange(q.1 + m, s.len() as int));
        (q.0, q.1, m)
    }
}

// ---------------------------------------------------------------- paragraphs and texts of links

/// Behind white space within the line, the text, the line or the paragraph ends at `j`.
pub open spec fn comes_to(s: Seq<char>, k: int, j: int) -> bool {
    &&& k <= j <= s.len()
    &&& forall|x: int| k <= x < j ==> text::is_white(#[trigger] s[x]) && s[x] != '\n'
    &&& j == s.len() || s[j] == '\n' || (!text::is_white(s[j]) && emphasis::starts_block(s, j))
}

proof fn lemma_ends_paragraph(s: Seq<char>, k: int)
    requires
        0 <= k <= s.len(),
    ensures
        emphasis::ends_paragraph(s, k) <==> exists|j: int| #[trigger] comes_to(s, k, j),
    decreases s.len() - k,
{
    if k == s.len() || s[k] == '\n' {
        assert(comes_to(s, k, k));
    } else if text::is_white(s[k]) {
        lemma_ends_paragraph(s, k + 1);
        if exists|j: int| #[trigger] comes_to(s, k + 1, j) {
            let j = choose|j: int| #[trigger] comes_to(s, k + 1, j);
            assert(comes_to(s, k, j));
        }
        if exists|j: int| #[trigger] comes_to(s, k, j) {
            let j = choose|j: int| #[trigger] comes_to(s, k, j);
            assert(j > k);
            assert(comes_to(s, k + 1, j));
        }
    } else {
        if emphasis::starts_block(s, k) {
            assert(comes_to(s, k, k));
        }
        if exists|j: int| #[trigger] comes_to(s, k, j) {
            let j = choose|j: int| #[trigger] comes_to(s, k, j);
            if j > k {
                assert(text::is_white(s[k]));
            }
        }
    }
}

/// A paragraph ends with a line if the next is blank, begins a block or is none.
pub proof fn paragraphs_end_with_blank_lines(s: Seq<char>, k: int)
    requires
        0 <= k < s.len(),
    ensures
        emphasis::paragraph_ends(s, k) <==> s[k] == '\n' && exists|j: int| #[trigger]
            comes_to(s, k + 1, j),
{
    lemma_ends_paragraph(s, k + 1);
}

/// Quotes, tables, headings, list items, rules and fences begin a block; letters begin none.
pub proof fn blocks_begin_with_their_marks(s: Seq<char>, k: int)
    requires
        0 <= k < s.len(),
    ensures
        s[k] == '>' || s[k] == '|' ==> emphasis::starts_block(s, k),
        (s[k] == '#' || s[k] == '-' || s[k] == '+' || s[k] == '*') && (k + 1 == s.len()
            || text::is_white(s[k + 1])) ==> emphasis::starts_block(s, k),
        (s[k] == '+' || s[k] == '*') && k + 1 < s.len() && !text::is_white(s[k + 1])
            ==> !emphasis::starts_block(s, k),
        (s[k] == '#' || s[k] == '-') && k + 1 < s.len() && !text::is_white(s[k + 1]) && s[k + 1]
            != s[k] ==> !emphasis::starts_block(s, k),
        (s[k] == '#' || s[k] == '-' || s[k] == '=') && k + 1 < s.len() && s[k + 1] == s[k]
            ==> emphasis::starts_block(s, k),
        s[k] == '`' ==> emphasis::starts_block(s, k) == (k + 2 < s.len() && s[k + 1] == '`' && s[k
            + 2] == '`'),
        'a' <= s[k] <= 'z' || 'A' <= s[k] <= 'Z' ==> !emphasis::starts_block(s, k),
{
}

/// A number begins a block if a full stop or a parenthesis ends it, with white space behind.
pub proof fn numbers_begin_list_items(s: Seq<char>, k: int, e: int)
    requires
        0 <= k < e <= s.len(),
        forall|x: int| k <= x < e ==> '0' <= #[trigger] s[x] <= '9',
        e == s.len() || !('0' <= s[e] <= '9'),
    ensures
        emphasis::starts_block(s, k) == (e < s.len() && (s[e] == '.' || s[e] == ')') && (e + 1
            == s.len() || text::is_white(s[e + 1]))),
{
    assert('0' <= s[k] <= '9');
    lemma_number_ends(s, k + 1, e);
}

proof fn lemma_number_ends(s: Seq<char>, k: int, e: int)
    requires
        0 <= k <= e <= s.len(),
        forall|x: int| k <= x < e ==> '0' <= #[trigger] s[x] <= '9',
        e == s.len() || !('0' <= s[e] <= '9'),
    ensures
        emphasis::number_ends(s, k) == (e < s.len() && (s[e] == '.' || s[e] == ')') && (e + 1
            == s.len() || text::is_white(s[e + 1]))),
    decreases e - k,
{
    if k < e {
        assert('0' <= s[k] <= '9');
        lemma_number_ends(s, k + 1, e);
    }
}

/// A `[` at `p` and a `]` at `b` are the brackets next to `i`, and an address follows.
pub open spec fn labelled(s: Seq<char>, p: int, i: int, b: int) -> bool {
    &&& 0 <= p < i <= b
    &&& b + 1 < s.len()
    &&& s[p] == '[' && s[b] == ']' && s[b + 1] == '('
    &&& forall|k: int| p < k < b ==> #[trigger] s[k] != '[' && s[k] != ']'
    &&& literal::in_address(s, b + 2)
}

proof fn lemma_bracket_before(s: Seq<char>, i: int)
    requires
        0 <= i <= s.len(),
    ensures
        match emphasis::bracket_before(s, i) {
            Some(p) => 0 <= p < i && (s[p] == '[' || s[p] == ']') && forall|k: int|
                p < k < i ==> #[trigger] s[k] != '[' && s[k] != ']',
            None => forall|k: int| 0 <= k < i ==> #[trigger] s[k] != '[' && s[k] != ']',
        },
    decreases i,
{
    if i > 0 && s[i - 1] != '[' && s[i - 1] != ']' {
        lemma_bracket_before(s, i - 1);
    }
}

proof fn lemma_bracket_after(s: Seq<char>, i: int)
    requires
        0 <= i <= s.len(),
    ensures
        match emphasis::bracket_after(s, i) {
            Some(b) => i <= b < s.len() && (s[b] == '[' || s[b] == ']') && forall|k: int|
                i <= k < b ==> #[trigger] s[k] != '[' && s[k] != ']',
            None => forall|k: int| i <= k < s.len() ==> #[trigger] s[k] != '[' && s[k] != ']',
        },
    decreases s.len() - i,
{
    if i < s.len() && s[i] != '[' && s[i] != ']' {
        lemma_bracket_after(s, i + 1);
    }
}

/// The text of a link goes from `[` to the next `](`, with no bracket between, if an address follows.
pub proof fn texts_of_links_stand_in_brackets(s: Seq<char>, i: int, b: int)
    requires
        0 <= i <= s.len(),
    ensures
        emphasis::link_text_end(s, i) == Some(b) <==> exists|p: int| #[trigger]
            labelled(s, p, i, b),
{
    lemma_bracket_before(s, i);
    lemma_bracket_after(s, i);
    if emphasis::link_text_end(s, i) == Some(b) {
        let p = emphasis::bracket_before(s, i)->0;
        assert(labelled(s, p, i, b)) by {
            assert forall|k: int| p < k < b implies #[trigger] s[k] != '[' && s[k] != ']' by {}
        }
    }
    if exists|p: int| #[trigger] labelled(s, p, i, b) {
        let p = choose|p: int| #[trigger] labelled(s, p, i, b);
        assert(s[p] == '[');
        assert(s[b] == ']');
        let q = emphasis::bracket_before(s, i)->0;
        if q > p {
            assert(s[q] != '[' && s[q] != ']');
        }
        assert(q == p);
        let c = emphasis::bracket_after(s, i)->0;
        if c < b {
            assert(s[c] != '[' && s[c] != ']');
        }
        assert(c == b);
    }
}

} // verus!
