//! What becomes of each piece of a formatted text, whatever follows it.

use crate::emphasis;
use crate::formatter;
use crate::formatter::{LinkStyle, OutputFormat};
use crate::formatter_laws;
use crate::table_laws;
use crate::text;
use crate::text_laws;
use vstd::prelude::*;

verus! {

// ---------------------------------------------------------------- escaping

proof fn lemma_entities_sum(a: Seq<char>, b: Seq<char>)
    ensures
        formatter_laws::entities(a + b) == formatter_laws::entities(a) + formatter_laws::entities(b),
    decreases b.len(),
{
    let left = formatter_laws::entities(a);
    if b.len() == 0 {
        assert(a + b =~= a);
        assert(left + formatter_laws::entities(b) =~= left);
    } else {
        assert((a + b).drop_last() =~= a + b.drop_last());
        lemma_entities_sum(a, b.drop_last());
        let before = formatter_laws::entities(b.drop_last());
        let e = formatter_laws::entity(b.last());
        assert(left + before + e =~= left + (before + e));
    }
}

/// Characters that HTML gives a meaning to are written as entities, the others as they are, each
/// whatever stands around it.
pub proof fn characters_are_escaped_one_by_one(a: Seq<char>, b: Seq<char>, c: char)
    ensures
        formatter::html_escaped(Seq::empty()) == Seq::<char>::empty(),
        formatter::html_escaped(a + b) == formatter::html_escaped(a) + formatter::html_escaped(b),
        formatter::html_escaped(seq!['&']) == "&amp;"@,
        formatter::html_escaped(seq!['<']) == "&lt;"@,
        formatter::html_escaped(seq!['>']) == "&gt;"@,
        c != '&' && c != '<' && c != '>' ==> formatter::html_escaped(seq![c]) == seq![c],
{
    formatter_laws::escaping_is_by_character(Seq::empty());
    formatter_laws::escaping_is_by_character(a);
    formatter_laws::escaping_is_by_character(b);
    formatter_laws::escaping_is_by_character(a + b);
    lemma_entities_sum(a, b);
    lemma_one_escaped('&');
    lemma_one_escaped('<');
    lemma_one_escaped('>');
    lemma_one_escaped(c);
}

proof fn lemma_one_escaped(c: char)
    ensures
        formatter::html_escaped(seq![c]) == formatter_laws::entity(c),
{
    formatter_laws::escaping_is_by_character(seq![c]);
    assert(seq![c].drop_last() =~= Seq::<char>::empty());
    reveal_with_fuel(formatter_laws::entities, 2);
    assert(Seq::<char>::empty() + formatter_laws::entity(c) =~= formatter_laws::entity(c));
}

proof fn lemma_escaped_sum(a: Seq<char>, b: Seq<char>)
    ensures
        formatter::html_escaped(a + b) == formatter::html_escaped(a) + formatter::html_escaped(b),
{
    characters_are_escaped_one_by_one(a, b, ' ');
}

/// Entities are made of none of the characters that mark something.
proof fn lemma_escaped_absent(s: Seq<char>, d: char)
    requires
        !s.contains(d),
        d == '*' || d == '`' || d == '[' || d == ']' || d == '(' || d == ')',
    ensures
        !formatter::html_escaped(s).contains(d),
    decreases s.len(),
{
    reveal_strlit("&amp;");
    reveal_strlit("&lt;");
    reveal_strlit("&gt;");
    if s.len() > 0 {
        let front = s.drop_last();
        let c = s.last();
        assert(s =~= front + seq![c]);
        assert(s.contains(s[s.len() - 1]));
        formatter_laws::lemma_absent_in_part(s, 0, s.len() - 1, d);
        assert(front =~= s.subrange(0, s.len() - 1));
        lemma_escaped_absent(front, d);
        lemma_escaped_sum(front, seq![c]);
        lemma_one_escaped(c);
        assert(!formatter_laws::entity(c).contains(d));
        formatter_laws::lemma_absent_in_sum(
            formatter::html_escaped(front),
            formatter_laws::entity(c),
            d,
        );
    } else {
        characters_are_escaped_one_by_one(s, s, ' ');
        assert(s =~= Seq::<char>::empty());
    }
}

/// What is no character of HTML stays.
proof fn lemma_kept_escaped(s: Seq<char>)
    requires
        !s.contains('&'),
        !s.contains('<'),
        !s.contains('>'),
    ensures
        formatter::html_escaped(s) == s,
    decreases s.len(),
{
    if s.len() > 0 {
        let front = s.drop_last();
        let c = s.last();
        assert(s =~= front + seq![c]);
        assert(s.contains(s[s.len() - 1]));
        formatter_laws::lemma_absent_in_part(s, 0, s.len() - 1, '&');
        formatter_laws::lemma_absent_in_part(s, 0, s.len() - 1, '<');
        formatter_laws::lemma_absent_in_part(s, 0, s.len() - 1, '>');
        assert(front =~= s.subrange(0, s.len() - 1));
        lemma_kept_escaped(front);
        lemma_escaped_sum(front, seq![c]);
        lemma_one_escaped(c);
    } else {
        characters_are_escaped_one_by_one(s, s, ' ');
        assert(s =~= Seq::<char>::empty());
    }
}

// ---------------------------------------------------------------- searching behind a beginning

/// Behind a beginning what is searched for stands where it stood without it.
proof fn lemma_find_behind(p: Seq<char>, rest: Seq<char>, pat: Seq<char>, from: int)
    requires
        0 <= from,
        pat.len() > 0,
    ensures
        text::find_from(p + rest, pat, p.len() + from) == match text::find_from(rest, pat, from) {
            Some(j) => Some(p.len() + j),
            None => None,
        },
{
    let s = p + rest;
    let n = p.len() as int;
    text_laws::the_first_occurrence_is_found(s, pat, n + from);
    text_laws::the_first_occurrence_is_found(rest, pat, from);
    assert forall|i: int| i >= n implies #[trigger] text_laws::occurs(s, pat, i)
        == text_laws::occurs(rest, pat, i - n) by {
        if text_laws::occurs(s, pat, i) {
            assert forall|k: int| 0 <= k < pat.len() implies rest[i - n + k] == #[trigger] pat[k] by {
                assert(s[i + k] == pat[k]);
            }
        }
        if text_laws::occurs(rest, pat, i - n) {
            assert forall|k: int| 0 <= k < pat.len() implies s[i + k] == #[trigger] pat[k] by {
                assert(rest[i - n + k] == pat[k]);
            }
        }
    }
    match text::find_from(rest, pat, from) {
        Some(j) => {
            assert(text_laws::occurs(s, pat, n + j));
            let f = text::find_from(s, pat, n + from)->0;
            assert(text_laws::occurs(rest, pat, f - n));
        },
        None => {
            if let Some(f) = text::find_from(s, pat, n + from) {
                assert(text_laws::occurs(rest, pat, f - n));
            }
        },
    }
}

/// Where nothing begins before, the search may as well begin there.
proof fn lemma_find_later(s: Seq<char>, pat: Seq<char>, from: int, to: int)
    requires
        0 <= from <= to,
        forall|i: int| from <= i < to ==> !#[trigger] text_laws::occurs(s, pat, i),
    ensures
        text::find_from(s, pat, from) == text::find_from(s, pat, to),
{
    text_laws::the_first_occurrence_is_found(s, pat, from);
    text_laws::the_first_occurrence_is_found(s, pat, to);
    if let Some(i) = text::find_from(s, pat, from) {
        assert(text_laws::occurs(s, pat, i));
    }
    if let Some(i) = text::find_from(s, pat, to) {
        assert(text_laws::occurs(s, pat, i));
    }
}

/// Nothing begins with a character that does not stand there.
proof fn lemma_begins_nowhere(s: Seq<char>, pat: Seq<char>, from: int, to: int)
    requires
        pat.len() > 0,
        0 <= from <= to <= s.len(),
        forall|i: int| from <= i < to ==> #[trigger] s[i] != pat[0],
    ensures
        forall|i: int| from <= i < to ==> !#[trigger] text_laws::occurs(s, pat, i),
{
    assert forall|i: int| from <= i < to implies !#[trigger] text_laws::occurs(s, pat, i) by {
        if text_laws::occurs(s, pat, i) {
            assert(s[i + 0] == pat[0]);
        }
    }
}

// ---------------------------------------------------------------- pairs of markers

/// No marker begins in the beginning, and none can be made across its end.
spec fn closed_off(p: Seq<char>, rest: Seq<char>, mark: Seq<char>) -> bool {
    &&& 1 <= mark.len() <= 2
    &&& forall|i: int| 0 <= i < p.len() ==> !#[trigger] text_laws::occurs(p + rest, mark, i)
    &&& !p.contains(mark[0]) || rest.len() == 0 || rest[0] != mark[0]
}

proof fn lemma_absent_closes_off(p: Seq<char>, rest: Seq<char>, mark: Seq<char>)
    requires
        1 <= mark.len() <= 2,
        !p.contains(mark[0]),
    ensures
        closed_off(p, rest, mark),
{
    assert forall|i: int| 0 <= i < p.len() implies #[trigger] (p + rest)[i] != mark[0] by {
        assert(p.contains(p[i]));
    }
    lemma_begins_nowhere(p + rest, mark, 0, p.len() as int);
}

proof fn lemma_still_closed_off(
    p: Seq<char>,
    rest: Seq<char>,
    mark: Seq<char>,
    open: Seq<char>,
    close: Seq<char>,
)
    requires
        closed_off(p, rest, mark),
    ensures
        formatter::first_pair_rewritten(rest, mark, open, close) matches Some(t) ==> closed_off(
            p,
            t,
            mark,
        ),
{
    if let Some(t) = formatter::first_pair_rewritten(rest, mark, open, close) {
        if !p.contains(mark[0]) {
            lemma_absent_closes_off(p, t, mark);
        } else {
            text_laws::the_first_occurrence_is_found(rest, mark, 0);
            let a = text::find_from(rest, mark, 0)->0;
            assert(text_laws::occurs(rest, mark, a));
            assert(rest[a + 0] == mark[0]);
            assert(a > 0);
            assert(t[0] == rest[0]);
            assert forall|i: int| 0 <= i < p.len() implies !#[trigger] text_laws::occurs(
                p + t,
                mark,
                i,
            ) by {
                if text_laws::occurs(p + t, mark, i) {
                    assert forall|k: int| 0 <= k < mark.len() implies (p + rest)[i + k]
                        == #[trigger] mark[k] by {
                        assert((p + t)[i + k] == mark[k]);
                    }
                    assert(text_laws::occurs(p + rest, mark, i));
                }
            }
        }
    }
}

/// A beginning in which no marker stands is kept, and what follows is rewritten as it would be by
/// itself.
proof fn lemma_pairs_behind(
    p: Seq<char>,
    rest: Seq<char>,
    mark: Seq<char>,
    open: Seq<char>,
    close: Seq<char>,
)
    requires
        formatter::pair_shrinks(mark, open, close),
        closed_off(p, rest, mark),
    ensures
        formatter::pairs_rewritten(p + rest, mark, open, close) == p + formatter::pairs_rewritten(
            rest,
            mark,
            open,
            close,
        ),
    decreases text::count(rest, mark[0]),
{
    let s = p + rest;
    let n = p.len() as int;
    let m = mark.len() as int;
    lemma_find_later(s, mark, 0, n);
    lemma_find_behind(p, rest, mark, 0);
    text_laws::the_first_occurrence_is_found(rest, mark, 0);
    if let Some(a) = text::find_from(rest, mark, 0) {
        lemma_find_behind(p, rest, mark, a + m);
        text_laws::the_first_occurrence_is_found(rest, mark, a + m);
        if let Some(b) = text::find_from(rest, mark, a + m) {
            let t = formatter::first_pair_rewritten(rest, mark, open, close)->0;
            let u = formatter::first_pair_rewritten(s, mark, open, close)->0;
            assert(s.take(n + a) =~= p + rest.take(a));
            assert(s.subrange(n + a + m, n + b) =~= rest.subrange(a + m, b));
            assert(s.skip(n + b + m) =~= rest.skip(b + m));
            assert(u =~= p + t);
            formatter::lemma_pair_count(rest, mark, open, close, mark[0]);
            formatter::lemma_pair_count(s, mark, open, close, mark[0]);
            lemma_still_closed_off(p, rest, mark, open, close);
            lemma_pairs_behind(p, t, mark, open, close);
        }
    }
}

proof fn lemma_at_front(mark: Seq<char>, rest: Seq<char>)
    ensures
        text::find_from(mark + rest, mark, 0) == Some(0int),
{
    text_laws::the_first_occurrence_is_found(mark + rest, mark, 0);
    assert(text_laws::occurs(mark + rest, mark, 0));
}

proof fn lemma_front_markers(inner: Seq<char>, rest: Seq<char>, mark: Seq<char>)
    requires
        mark.len() > 0,
        !inner.contains(mark[0]),
    ensures
        text::find_from(mark + inner + mark + rest, mark, 0) == Some(0int),
        text::find_from(mark + inner + mark + rest, mark, mark.len() as int) == Some(
            mark.len() + inner.len() as int,
        ),
{
    let s = mark + inner + mark + rest;
    let p = mark + inner;
    let m = mark.len() as int;
    let b = m + inner.len();
    assert(s =~= mark + (inner + mark + rest));
    lemma_at_front(mark, inner + mark + rest);
    assert(s =~= p + (mark + rest));
    lemma_at_front(mark, rest);
    lemma_find_behind(p, mark + rest, mark, 0);
    assert forall|i: int| m <= i < b implies #[trigger] s[i] != mark[0] by {
        assert(s[i] == inner[i - m]);
        assert(inner.contains(inner[i - m]));
    }
    lemma_begins_nowhere(s, mark, m, b);
    lemma_find_later(s, mark, m, b);
}

proof fn lemma_front_rewritten(
    inner: Seq<char>,
    rest: Seq<char>,
    mark: Seq<char>,
    open: Seq<char>,
    close: Seq<char>,
)
    requires
        mark.len() > 0,
        !inner.contains(mark[0]),
    ensures
        formatter::first_pair_rewritten(mark + inner + mark + rest, mark, open, close) == Some(
            open + inner + close + rest,
        ),
{
    let s = mark + inner + mark + rest;
    let m = mark.len() as int;
    let b = m + inner.len();
    lemma_front_markers(inner, rest, mark);
    assert(s.subrange(m, b) =~= inner);
    assert(s.skip(b + m) =~= rest);
    assert(s.take(0) + open =~= open);
}

/// The first two markers are exchanged for the replacements.
proof fn lemma_front_pair(
    inner: Seq<char>,
    rest: Seq<char>,
    mark: Seq<char>,
    open: Seq<char>,
    close: Seq<char>,
)
    requires
        formatter::pair_shrinks(mark, open, close),
        !inner.contains(mark[0]),
    ensures
        formatter::pairs_rewritten(mark + inner + mark + rest, mark, open, close)
            == formatter::pairs_rewritten(open + inner + close + rest, mark, open, close),
{
    lemma_front_rewritten(inner, rest, mark, open, close);
    formatter::lemma_pair_count(mark + inner + mark + rest, mark, open, close, mark[0]);
}

// ---------------------------------------------------------------- links

proof fn lemma_links_behind(p: Seq<char>, rest: Seq<char>, style: LinkStyle)
    requires
        !p.contains('['),
    ensures
        formatter::links_rewritten(p + rest, style) == p + formatter::links_rewritten(rest, style),
    decreases text::count(rest, '['),
{
    reveal_strlit("[");
    reveal_strlit("](");
    reveal_strlit(")");
    let s = p + rest;
    let n = p.len() as int;
    assert forall|i: int| 0 <= i < n implies #[trigger] s[i] != "["@[0] by {
        assert(p.contains(p[i]));
    }
    lemma_begins_nowhere(s, "["@, 0, n);
    lemma_find_later(s, "["@, 0, n);
    lemma_find_behind(p, rest, "["@, 0);
    text_laws::the_first_occurrence_is_found(rest, "["@, 0);
    formatter::lemma_link_shrinks(s, style);
    formatter::lemma_link_shrinks(rest, style);
    if let Some(a) = text::find_from(rest, "["@, 0) {
        lemma_find_behind(p, rest, "]("@, a);
        text_laws::the_first_occurrence_is_found(rest, "]("@, a);
        if let Some(b) = text::find_from(rest, "]("@, a) {
            lemma_find_behind(p, rest, ")"@, b + 2);
            text_laws::the_first_occurrence_is_found(rest, ")"@, b + 2);
            if let Some(c) = text::find_from(rest, ")"@, b + 2) {
                assert(rest[a + 0] == "["@[0]);
                assert(rest[b + 0] == "]("@[0]);
                assert(a < b);
                let t = formatter::first_link_rewritten(rest, style)->0;
                let u = formatter::first_link_rewritten(s, style)->0;
                assert(s.take(n + a) =~= p + rest.take(a));
                assert(s.subrange(n + a + 1, n + b) =~= rest.subrange(a + 1, b));
                assert(s.subrange(n + b + 2, n + c) =~= rest.subrange(b + 2, c));
                assert(s.skip(n + c + 1) =~= rest.skip(c + 1));
                assert(u =~= p + t);
                lemma_links_behind(p, t, style);
            }
        }
    }
}

proof fn lemma_front_link(label: Seq<char>, url: Seq<char>, rest: Seq<char>, style: LinkStyle)
    requires
        !label.contains('['),
        !label.contains(']'),
        !url.contains('['),
        !url.contains(')'),
    ensures
        formatter::links_rewritten("["@ + label + "]("@ + url + ")"@ + rest, style)
            == formatter::link(style, label, url) + formatter::links_rewritten(rest, style),
{
    reveal_strlit("[");
    reveal_strlit("](");
    reveal_strlit(")");
    let s = "["@ + label + "]("@ + url + ")"@ + rest;
    let b = 1 + label.len() as int;
    let c = b + 2 + url.len();
    text_laws::the_first_occurrence_is_found(s, "["@, 0);
    assert(text_laws::occurs(s, "["@, 0));
    assert(text::find_from(s, "["@, 0) == Some(0int));
    text_laws::the_first_occurrence_is_found(s, "]("@, 0);
    assert(text_laws::occurs(s, "]("@, b));
    assert forall|i: int| 0 <= i < b implies #[trigger] s[i] != "]("@[0] by {
        if i > 0 {
            assert(label.contains(label[i - 1]));
        }
    }
    lemma_begins_nowhere(s, "]("@, 0, b);
    assert(text::find_from(s, "]("@, 0) == Some(b));
    text_laws::the_first_occurrence_is_found(s, ")"@, b + 2);
    assert(text_laws::occurs(s, ")"@, c));
    assert forall|i: int| b + 2 <= i < c implies #[trigger] s[i] != ")"@[0] by {
        assert(url.contains(url[i - b - 2]));
    }
    lemma_begins_nowhere(s, ")"@, b + 2, c);
    assert(text::find_from(s, ")"@, b + 2) == Some(c));
    assert(s.subrange(1, b) =~= label);
    assert(s.subrange(b + 2, c) =~= url);
    assert(s.skip(c + 1) =~= rest);
    let l = formatter::link(style, label, url);
    assert(s.take(0) + l + rest =~= l + rest);
    formatter::lemma_link_shrinks(s, style);
    lemma_link_unbracketed(style, label, url);
    lemma_links_behind(l, rest, style);
}

proof fn lemma_link_unbracketed(style: LinkStyle, label: Seq<char>, url: Seq<char>)
    requires
        !label.contains('['),
        !url.contains('['),
    ensures
        !formatter::link(style, label, url).contains('['),
{
    reveal_strlit("<a href=\"");
    reveal_strlit("\">");
    reveal_strlit("</a>");
    reveal_strlit("<");
    reveal_strlit("|");
    reveal_strlit(">");
    reveal_strlit(" (");
    reveal_strlit(")");
    let l = formatter::link(style, label, url);
    if l.contains('[') {
        let k = choose|k: int| 0 <= k < l.len() && l[k] == '[';
        match style {
            LinkStyle::Html => {
                let u = 9 + url.len();
                if 9 <= k < u {
                    assert(url[k - 9] == '[');
                } else if u + 2 <= k < u + 2 + label.len() {
                    assert(label[k - u - 2] == '[');
                }
            },
            LinkStyle::Slack => {
                let u = 1 + url.len();
                if 1 <= k < u {
                    assert(url[k - 1] == '[');
                } else if u + 1 <= k < u + 1 + label.len() {
                    assert(label[k - u - 1] == '[');
                }
            },
            LinkStyle::Plain => {
                let u = label.len() + 2;
                if k < label.len() {
                    assert(label[k] == '[');
                } else if u <= k < u + url.len() {
                    assert(url[k - u] == '[');
                }
            },
        }
    }
}

// ---------------------------------------------------------------- single asterisks

/// No two asterisks meet where the texts are joined.
spec fn parted(x: Seq<char>, y: Seq<char>) -> bool {
    x.len() == 0 || y.len() == 0 || x[x.len() - 1] != '*' || y[0] != '*'
}

proof fn lemma_lone_sum(x: Seq<char>, y: Seq<char>, i: int)
    requires
        parted(x, y),
        0 <= i < (x + y).len(),
    ensures
        i < x.len() ==> formatter::lone_asterisk(x + y, i) == formatter::lone_asterisk(x, i),
        i >= x.len() ==> formatter::lone_asterisk(x + y, i) == formatter::lone_asterisk(
            y,
            i - x.len(),
        ),
{
    let s = x + y;
    let n = x.len() as int;
    if i < n {
        assert(s[i] == x[i]);
        if i > 0 {
            assert(s[i - 1] == x[i - 1]);
        }
        if i + 1 < n {
            assert(s[i + 1] == x[i + 1]);
        } else if i + 1 < s.len() {
            assert(s[i + 1] == y[0]);
        }
    } else {
        assert(s[i] == y[i - n]);
        if i > n {
            assert(s[i - 1] == y[i - n - 1]);
        } else if i > 0 {
            assert(s[i - 1] == x[n - 1]);
        }
        if i + 1 < s.len() {
            assert(s[i + 1] == y[i - n + 1]);
        }
    }
}

proof fn lemma_asterisks_front(x: Seq<char>, y: Seq<char>, n: nat)
    requires
        parted(x, y),
        n <= x.len(),
    ensures
        formatter::lone_asterisks(x + y, n) == formatter::lone_asterisks(x, n),
        formatter::italics(x + y, n) == formatter::italics(x, n),
        formatter::asterisks_dropped(x + y, n) == formatter::asterisks_dropped(x, n),
    decreases n,
{
    if n > 0 {
        lemma_asterisks_front(x, y, (n - 1) as nat);
        lemma_lone_sum(x, y, n - 1);
        assert((x + y)[n - 1] == x[n - 1]);
    }
}

proof fn lemma_asterisks_sum(x: Seq<char>, y: Seq<char>, n: nat)
    requires
        parted(x, y),
        n <= y.len(),
        formatter::lone_asterisks(x, x.len()) % 2 == 0,
    ensures
        formatter::lone_asterisks(x + y, x.len() + n) == formatter::lone_asterisks(x, x.len())
            + formatter::lone_asterisks(y, n),
        formatter::italics(x + y, x.len() + n) == formatter::italics(x, x.len())
            + formatter::italics(y, n),
        formatter::asterisks_dropped(x + y, x.len() + n) == formatter::asterisks_dropped(x, x.len())
            + formatter::asterisks_dropped(y, n),
    decreases n,
{
    let xi = formatter::italics(x, x.len());
    let xd = formatter::asterisks_dropped(x, x.len());
    if n == 0 {
        lemma_asterisks_front(x, y, x.len());
        assert(xi + formatter::italics(y, 0) =~= xi);
        assert(xd + formatter::asterisks_dropped(y, 0) =~= xd);
    } else {
        let k = (n - 1) as nat;
        lemma_asterisks_sum(x, y, k);
        lemma_lone_sum(x, y, x.len() as int + k as int);
        let yi = formatter::italics(y, k);
        let yd = formatter::asterisks_dropped(y, k);
        let c = y[k as int];
        assert((x + y)[x.len() as int + k as int] == c);
        assert((x.len() + n - 1) as nat == x.len() + k);
        assert((xi + yi).push(c) =~= xi + yi.push(c));
        assert((xd + yd).push(c) =~= xd + yd.push(c));
        assert(xi + yi + "<i>"@ =~= xi + (yi + "<i>"@));
        assert(xi + yi + "</i>"@ =~= xi + (yi + "</i>"@));
    }
}

/// A beginning without asterisks has nothing to be marked.
proof fn lemma_italics_behind(p: Seq<char>, y: Seq<char>)
    requires
        !p.contains('*'),
    ensures
        formatter::italics(p + y, (p + y).len()) == p + formatter::italics(y, y.len()),
        formatter::asterisks_dropped(p + y, (p + y).len()) == p + formatter::asterisks_dropped(
            y,
            y.len(),
        ),
{
    if p.len() > 0 {
        assert(p.contains(p[p.len() - 1]));
    }
    lemma_none_lone(p, p.len());
    lemma_asterisks_sum(p, y, y.len());
    formatter_laws::lemma_no_asterisk_dropped(p, p.len());
    assert(p.take(p.len() as int) =~= p);
}

proof fn lemma_none_lone(p: Seq<char>, n: nat)
    requires
        !p.contains('*'),
        n <= p.len(),
    ensures
        formatter::lone_asterisks(p, n) == 0,
    decreases n,
{
    if n > 0 {
        lemma_none_lone(p, (n - 1) as nat);
        assert(p.contains(p[n - 1]));
    }
}

proof fn lemma_between_asterisks(inner: Seq<char>, n: nat)
    requires
        inner.len() > 0,
        !inner.contains('*'),
        n <= inner.len(),
    ensures
        ({
            let s = seq!['*'] + inner + seq!['*'];
            &&& formatter::lone_asterisks(s, n + 1) == 1
            &&& formatter::italics(s, n + 1) == "<i>"@ + inner.take(n as int)
            &&& formatter::asterisks_dropped(s, n + 1) == inner.take(n as int)
        }),
    decreases n,
{
    let s = seq!['*'] + inner + seq!['*'];
    assert(inner.contains(inner[0]));
    if n == 0 {
        assert(s[1] == inner[0]);
        assert(formatter::lone_asterisk(s, 0));
        reveal_with_fuel(formatter::lone_asterisks, 2);
        reveal_with_fuel(formatter::italics, 2);
        reveal_with_fuel(formatter::asterisks_dropped, 2);
        assert(Seq::<char>::empty() + "<i>"@ =~= "<i>"@ + inner.take(0));
        assert(inner.take(0) =~= Seq::<char>::empty());
    } else {
        lemma_between_asterisks(inner, (n - 1) as nat);
        assert(inner.contains(inner[n - 1]));
        assert(s[n as int] == inner[n - 1]);
        assert(!formatter::lone_asterisk(s, n as int));
        assert(inner.take(n as int) =~= inner.take(n - 1).push(inner[n - 1]));
        assert(("<i>"@ + inner.take(n - 1)).push(inner[n - 1]) =~= "<i>"@ + inner.take(n as int));
    }
}

/// A text between two lone asterisks is marked.
proof fn lemma_italic(inner: Seq<char>)
    requires
        inner.len() > 0,
        !inner.contains('*'),
    ensures
        ({
            let s = seq!['*'] + inner + seq!['*'];
            &&& formatter::lone_asterisks(s, s.len()) == 2
            &&& formatter::italics(s, s.len()) == "<i>"@ + inner + "</i>"@
            &&& formatter::asterisks_dropped(s, s.len()) == inner
        }),
{
    let s = seq!['*'] + inner + seq!['*'];
    lemma_between_asterisks(inner, inner.len());
    let n = inner.len() + 1;
    assert(inner.contains(inner[inner.len() - 1]));
    assert(s[n - 1] == inner[inner.len() - 1]);
    assert(formatter::lone_asterisk(s, n as int));
    assert(inner.take(inner.len() as int) =~= inner);
}

// ---------------------------------------------------------------- Telegram

/// The text holds no marker and no bracket.
pub open spec fn unmarked(s: Seq<char>) -> bool {
    !s.contains('*') && !s.contains('`') && !s.contains('[')
}

proof fn lemma_first_kept(
    rest: Seq<char>,
    mark: Seq<char>,
    open: Seq<char>,
    close: Seq<char>,
)
    requires
        formatter::pair_shrinks(mark, open, close),
        mark.len() <= 2,
        rest.len() > 0,
        rest[0] != mark[0],
    ensures
        formatter::pairs_rewritten(rest, mark, open, close).len() > 0,
        formatter::pairs_rewritten(rest, mark, open, close)[0] == rest[0],
{
    let head = rest.take(1);
    let tail = rest.skip(1);
    assert(rest =~= head + tail);
    assert(!head.contains(mark[0])) by {
        if head.contains(mark[0]) {
            let k = choose|k: int| 0 <= k < head.len() && head[k] == mark[0];
            assert(head[k] == rest[0]);
        }
    }
    lemma_absent_closes_off(head, tail, mark);
    lemma_pairs_behind(head, tail, mark, open, close);
}

spec fn bold(e: Seq<char>) -> Seq<char> {
    formatter::pairs_rewritten(e, "**"@, "<b>"@, "</b>"@)
}

spec fn coded(e: Seq<char>) -> Seq<char> {
    formatter::pairs_rewritten(e, "`"@, "<code>"@, "</code>"@)
}

spec fn after_bold(e: Seq<char>) -> Seq<char> {
    formatter::links_rewritten(coded(formatter::italics(e, e.len())), LinkStyle::Html)
}

proof fn lemma_bold_behind(p: Seq<char>, rest: Seq<char>)
    requires
        !p.contains('*'),
    ensures
        bold(p + rest) == p + bold(rest),
{
    reveal_strlit("**");
    formatter::lemma_bold_shrinks();
    lemma_absent_closes_off(p, rest, "**"@);
    lemma_pairs_behind(p, rest, "**"@, "<b>"@, "</b>"@);
}

proof fn lemma_coded_behind(p: Seq<char>, rest: Seq<char>)
    requires
        !p.contains('`'),
    ensures
        coded(p + rest) == p + coded(rest),
{
    reveal_strlit("`");
    formatter::lemma_code_shrinks();
    lemma_absent_closes_off(p, rest, "`"@);
    lemma_pairs_behind(p, rest, "`"@, "<code>"@, "</code>"@);
}

proof fn lemma_after_bold_behind(p: Seq<char>, rest: Seq<char>)
    requires
        unmarked(p),
    ensures
        after_bold(p + rest) == p + after_bold(rest),
{
    lemma_italics_behind(p, rest);
    let y = formatter::italics(rest, rest.len());
    lemma_coded_behind(p, y);
    lemma_links_behind(p, coded(y), LinkStyle::Html);
}

proof fn lemma_escaped_unmarked(s: Seq<char>)
    requires
        unmarked(s),
    ensures
        unmarked(formatter::html_escaped(s)),
{
    lemma_escaped_absent(s, '*');
    lemma_escaped_absent(s, '`');
    lemma_escaped_absent(s, '[');
}

/// The texts between which another stands are unmarked with it.
proof fn lemma_framed(open: Seq<char>, inner: Seq<char>, close: Seq<char>)
    requires
        unmarked(open),
        unmarked(inner),
        unmarked(close),
    ensures
        unmarked(open + inner + close),
{
    formatter_laws::lemma_absent_in_sum(open, inner, '*');
    formatter_laws::lemma_absent_in_sum(open, inner, '`');
    formatter_laws::lemma_absent_in_sum(open, inner, '[');
    formatter_laws::lemma_absent_in_sum(open + inner, close, '*');
    formatter_laws::lemma_absent_in_sum(open + inner, close, '`');
    formatter_laws::lemma_absent_in_sum(open + inner, close, '[');
}

proof fn lemma_tags_unmarked()
    ensures
        unmarked("<b>"@),
        unmarked("</b>"@),
        unmarked("<i>"@),
        unmarked("</i>"@),
        unmarked("<code>"@),
        unmarked("</code>"@),
{
    reveal_strlit("<b>");
    reveal_strlit("</b>");
    reveal_strlit("<i>");
    reveal_strlit("</i>");
    reveal_strlit("<code>");
    reveal_strlit("</code>");
}

/// On Telegram a text without markers is escaped, and what follows it is rewritten as it would be by
/// itself.
pub proof fn telegram_escapes_text(p: Seq<char>, rest: Seq<char>)
    requires
        unmarked(p),
    ensures
        formatter::telegram_html(p + rest) == formatter::html_escaped(p) + formatter::telegram_html(
            rest,
        ),
{
    lemma_escaped_sum(p, rest);
    lemma_escaped_unmarked(p);
    let e = formatter::html_escaped(p);
    let f = formatter::html_escaped(rest);
    lemma_bold_behind(e, f);
    lemma_after_bold_behind(e, bold(f));
}

/// On Telegram a text between two asterisks each is bold, whatever follows.
pub proof fn telegram_marks_bold(inner: Seq<char>, rest: Seq<char>)
    requires
        unmarked(inner),
    ensures
        formatter::telegram_html("**"@ + inner + "**"@ + rest) == "<b>"@ + formatter::html_escaped(
            inner,
        ) + "</b>"@ + formatter::telegram_html(rest),
{
    reveal_strlit("**");
    let m = "**"@;
    let e = formatter::html_escaped(inner);
    let f = formatter::html_escaped(rest);
    lemma_kept_escaped(m);
    lemma_escaped_sum(m, inner);
    lemma_escaped_sum(m + inner, m);
    lemma_escaped_sum(m + inner + m, rest);
    lemma_escaped_unmarked(inner);
    formatter::lemma_bold_shrinks();
    lemma_front_pair(e, f, m, "<b>"@, "</b>"@);
    lemma_tags_unmarked();
    lemma_framed("<b>"@, e, "</b>"@);
    let q = "<b>"@ + e + "</b>"@;
    lemma_bold_behind(q, f);
    lemma_after_bold_behind(q, bold(f));
}

proof fn lemma_first_escaped(s: Seq<char>)
    requires
        s.len() > 0,
        s[0] != '*',
    ensures
        formatter::html_escaped(s).len() > 0,
        formatter::html_escaped(s)[0] != '*',
{
    reveal_strlit("&amp;");
    reveal_strlit("&lt;");
    reveal_strlit("&gt;");
    let c = s[0];
    let tail = s.skip(1);
    assert(s =~= seq![c] + tail);
    lemma_escaped_sum(seq![c], tail);
    lemma_one_escaped(c);
    let e = formatter_laws::entity(c);
    assert(e.len() > 0 && e[0] != '*');
}

proof fn lemma_starred_closed_off(inner: Seq<char>, rest: Seq<char>)
    requires
        inner.len() > 0,
        !inner.contains('*'),
        rest.len() == 0 || rest[0] != '*',
    ensures
        closed_off(seq!['*'] + inner + seq!['*'], rest, "**"@),
{
    reveal_strlit("**");
    let x = seq!['*'] + inner + seq!['*'];
    let s = x + rest;
    let m = "**"@;
    assert forall|i: int| 0 <= i < x.len() implies !#[trigger] text_laws::occurs(s, m, i) by {
        if text_laws::occurs(s, m, i) {
            assert(s[i + 0] == m[0]);
            assert(s[i + 1] == m[1]);
            if i == 0 {
                assert(s[1] == inner[0]);
                assert(inner.contains(inner[0]));
            } else if i <= inner.len() {
                assert(s[i] == inner[i - 1]);
                assert(inner.contains(inner[i - 1]));
            } else {
                assert(s[i + 1] == rest[0]);
            }
        }
    }
}

/// On Telegram a text between single asterisks is in italics, whatever follows, unless that is a third
/// asterisk.
pub proof fn telegram_marks_italics(inner: Seq<char>, rest: Seq<char>)
    requires
        unmarked(inner),
        inner.len() > 0,
        rest.len() == 0 || rest[0] != '*',
    ensures
        formatter::telegram_html(seq!['*'] + inner + seq!['*'] + rest) == "<i>"@
            + formatter::html_escaped(inner) + "</i>"@ + formatter::telegram_html(rest),
{
    reveal_strlit("**");
    let m = seq!['*'];
    let e = formatter::html_escaped(inner);
    let f = formatter::html_escaped(rest);
    lemma_one_escaped('*');
    lemma_escaped_sum(m, inner);
    lemma_escaped_sum(m + inner, m);
    lemma_escaped_sum(m + inner + m, rest);
    lemma_escaped_unmarked(inner);
    assert(inner[0] != '*') by {
        assert(inner.contains(inner[0]));
    }
    lemma_first_escaped(inner);
    let x = m + e + m;
    formatter::lemma_bold_shrinks();
    let y = bold(f);
    if rest.len() > 0 {
        lemma_first_escaped(rest);
        lemma_first_kept(f, "**"@, "<b>"@, "</b>"@);
    } else {
        assert(rest =~= Seq::<char>::empty());
        characters_are_escaped_one_by_one(rest, rest, ' ');
        text_laws::the_first_occurrence_is_found(f, "**"@, 0);
    }
    lemma_starred_closed_off(e, f);
    lemma_pairs_behind(x, f, "**"@, "<b>"@, "</b>"@);
    lemma_italic(e);
    lemma_asterisks_sum(x, y, y.len());
    let q = "<i>"@ + e + "</i>"@;
    let z = formatter::italics(y, y.len());
    assert(formatter::italics(x + y, (x + y).len()) == q + z);
    lemma_tags_unmarked();
    lemma_framed("<i>"@, e, "</i>"@);
    lemma_coded_behind(q, z);
    lemma_links_behind(q, coded(z), LinkStyle::Html);
}

/// On Telegram a text between backticks is code, whatever follows.
pub proof fn telegram_marks_code(inner: Seq<char>, rest: Seq<char>)
    requires
        unmarked(inner),
    ensures
        formatter::telegram_html("`"@ + inner + "`"@ + rest) == "<code>"@ + formatter::html_escaped(
            inner,
        ) + "</code>"@ + formatter::telegram_html(rest),
{
    reveal_strlit("`");
    let m = "`"@;
    let e = formatter::html_escaped(inner);
    let f = formatter::html_escaped(rest);
    lemma_kept_escaped(m);
    lemma_escaped_sum(m, inner);
    lemma_escaped_sum(m + inner, m);
    lemma_escaped_sum(m + inner + m, rest);
    lemma_escaped_unmarked(inner);
    let x = m + e + m;
    formatter_laws::lemma_absent_in_sum(m, e, '*');
    formatter_laws::lemma_absent_in_sum(m + e, m, '*');
    lemma_bold_behind(x, f);
    let y = bold(f);
    lemma_italics_behind(x, y);
    let z = formatter::italics(y, y.len());
    formatter::lemma_code_shrinks();
    lemma_front_pair(e, z, m, "<code>"@, "</code>"@);
    let q = "<code>"@ + e + "</code>"@;
    lemma_tags_unmarked();
    lemma_framed("<code>"@, e, "</code>"@);
    lemma_coded_behind(q, z);
    lemma_links_behind(q, coded(z), LinkStyle::Html);
}

/// The text holds no marker, no bracket and no parenthesis that ends an address.
pub open spec fn bare(s: Seq<char>) -> bool {
    unmarked(s) && !s.contains(']') && !s.contains(')')
}

/// On Telegram a link becomes an anchor with its address and text, whatever follows.
pub proof fn telegram_marks_links(label: Seq<char>, url: Seq<char>, rest: Seq<char>)
    requires
        bare(label),
        bare(url),
    ensures
        formatter::telegram_html("["@ + label + "]("@ + url + ")"@ + rest) == "<a href=\""@
            + formatter::html_escaped(url) + "\">"@ + formatter::html_escaped(label) + "</a>"@
            + formatter::telegram_html(rest),
{
    reveal_strlit("[");
    reveal_strlit("](");
    reveal_strlit(")");
    let e = formatter::html_escaped(label);
    let u = formatter::html_escaped(url);
    let f = formatter::html_escaped(rest);
    lemma_kept_escaped("["@);
    lemma_kept_escaped("]("@);
    lemma_kept_escaped(")"@);
    lemma_escaped_sum("["@, label);
    lemma_escaped_sum("["@ + label, "]("@);
    lemma_escaped_sum("["@ + label + "]("@, url);
    lemma_escaped_sum("["@ + label + "]("@ + url, ")"@);
    lemma_escaped_sum("["@ + label + "]("@ + url + ")"@, rest);
    lemma_escaped_unmarked(label);
    lemma_escaped_unmarked(url);
    lemma_escaped_absent(label, ']');
    lemma_escaped_absent(url, ')');
    let x = "["@ + e + "]("@ + u + ")"@;
    lemma_linked_absent(e, u, '*');
    lemma_linked_absent(e, u, '`');
    lemma_bold_behind(x, f);
    let y = bold(f);
    lemma_italics_behind(x, y);
    let z = formatter::italics(y, y.len());
    lemma_coded_behind(x, z);
    lemma_front_link(e, u, coded(z), LinkStyle::Html);
}

proof fn lemma_linked_absent(label: Seq<char>, url: Seq<char>, d: char)
    requires
        !label.contains(d),
        !url.contains(d),
        d == '*' || d == '`',
    ensures
        !("["@ + label + "]("@ + url + ")"@).contains(d),
{
    reveal_strlit("[");
    reveal_strlit("](");
    reveal_strlit(")");
    formatter_laws::lemma_absent_in_sum("["@, label, d);
    formatter_laws::lemma_absent_in_sum("["@ + label, "]("@, d);
    formatter_laws::lemma_absent_in_sum("["@ + label + "]("@, url, d);
    formatter_laws::lemma_absent_in_sum("["@ + label + "]("@ + url, ")"@, d);
}

// ---------------------------------------------------------------- Slack

/// On Slack a text without asterisks and brackets stays, and what follows it is rewritten as it would
/// be by itself.
pub proof fn slack_keeps_text(p: Seq<char>, rest: Seq<char>)
    requires
        !p.contains('*'),
        !p.contains('['),
    ensures
        formatter::slack_mrkdwn(p + rest) == p + formatter::slack_mrkdwn(rest),
{
    reveal_strlit("**");
    formatter::lemma_bold_shrinks();
    lemma_absent_closes_off(p, rest, "**"@);
    lemma_pairs_behind(p, rest, "**"@, "*"@, "*"@);
    lemma_links_behind(
        p,
        formatter::pairs_rewritten(rest, "**"@, "*"@, "*"@),
        LinkStyle::Slack,
    );
}

/// On Slack a text between two asterisks each stands between one each, whatever follows, unless that
/// is another asterisk.
pub proof fn slack_marks_bold(inner: Seq<char>, rest: Seq<char>)
    requires
        inner.len() > 0,
        !inner.contains('*'),
        !inner.contains('['),
        rest.len() == 0 || rest[0] != '*',
    ensures
        formatter::slack_mrkdwn("**"@ + inner + "**"@ + rest) == "*"@ + inner + "*"@
            + formatter::slack_mrkdwn(rest),
{
    reveal_strlit("**");
    reveal_strlit("*");
    formatter::lemma_bold_shrinks();
    lemma_front_pair(inner, rest, "**"@, "*"@, "*"@);
    assert("*"@ =~= seq!['*']);
    let x = "*"@ + inner + "*"@;
    lemma_starred_closed_off(inner, rest);
    lemma_pairs_behind(x, rest, "**"@, "*"@, "*"@);
    formatter_laws::lemma_absent_in_sum("*"@, inner, '[');
    formatter_laws::lemma_absent_in_sum("*"@ + inner, "*"@, '[');
    lemma_links_behind(
        x,
        formatter::pairs_rewritten(rest, "**"@, "*"@, "*"@),
        LinkStyle::Slack,
    );
}

/// On Slack a link stands in angle brackets, the address first, whatever follows.
pub proof fn slack_marks_links(label: Seq<char>, url: Seq<char>, rest: Seq<char>)
    requires
        bare(label),
        bare(url),
    ensures
        formatter::slack_mrkdwn("["@ + label + "]("@ + url + ")"@ + rest) == "<"@ + url + "|"@
            + label + ">"@ + formatter::slack_mrkdwn(rest),
{
    reveal_strlit("**");
    formatter::lemma_bold_shrinks();
    let x = "["@ + label + "]("@ + url + ")"@;
    lemma_linked_absent(label, url, '*');
    lemma_absent_closes_off(x, rest, "**"@);
    lemma_pairs_behind(x, rest, "**"@, "*"@, "*"@);
    lemma_front_link(
        label,
        url,
        formatter::pairs_rewritten(rest, "**"@, "*"@, "*"@),
        LinkStyle::Slack,
    );
}

// ---------------------------------------------------------------- plain text

spec fn unstarred(s: Seq<char>) -> Seq<char> {
    text::replaced(s, "**"@, ""@)
}

spec fn unticked(s: Seq<char>) -> Seq<char> {
    text::replaced(s, "`"@, ""@)
}

spec fn after_stars(s: Seq<char>) -> Seq<char> {
    formatter::links_rewritten(
        unticked(formatter::asterisks_dropped(s, s.len())),
        LinkStyle::Plain,
    )
}

proof fn lemma_unstarred_behind(p: Seq<char>, rest: Seq<char>)
    requires
        !p.contains('*'),
    ensures
        unstarred(p + rest) == p + unstarred(rest),
{
    reveal_strlit("**");
    lemma_absent_closes_off(p, rest, "**"@);
    table_laws::lemma_clear(p, rest, "**"@, ""@);
}

proof fn lemma_unticked_behind(p: Seq<char>, rest: Seq<char>)
    requires
        !p.contains('`'),
    ensures
        unticked(p + rest) == p + unticked(rest),
{
    reveal_strlit("`");
    lemma_absent_closes_off(p, rest, "`"@);
    table_laws::lemma_clear(p, rest, "`"@, ""@);
}

/// A marker at the front is dropped.
proof fn lemma_front_dropped(mark: Seq<char>, rest: Seq<char>)
    requires
        mark.len() > 0,
    ensures
        text::replaced(mark + rest, mark, ""@) == text::replaced(rest, mark, ""@),
{
    reveal_strlit("");
    let s = mark + rest;
    assert(text_laws::occurs(s, mark, 0));
    text_laws::occurrences_are_replaced_in_turn(s, mark, ""@, 0);
    assert(s.subrange(0int + mark.len(), s.len() as int) =~= rest);
    let done = text::replaced(rest, mark, ""@);
    assert(s.subrange(0, 0) + ""@ + done =~= done);
}

proof fn lemma_after_stars_behind(p: Seq<char>, rest: Seq<char>)
    requires
        unmarked(p),
    ensures
        after_stars(p + rest) == p + after_stars(rest),
{
    lemma_italics_behind(p, rest);
    let y = formatter::asterisks_dropped(rest, rest.len());
    lemma_unticked_behind(p, y);
    lemma_links_behind(p, unticked(y), LinkStyle::Plain);
}

proof fn lemma_plain_stages(s: Seq<char>)
    requires
        !s.contains('_'),
    ensures
        formatter::plain_text(s) == after_stars(unstarred(s)),
{
    emphasis::text_without_underscores_is_kept(s);
}

/// In plain text what marks nothing stays, and what follows is rewritten as it would be by itself; no
/// underscores are looked at here.
pub proof fn plain_text_keeps_text(p: Seq<char>, rest: Seq<char>)
    requires
        unmarked(p),
        !p.contains('_'),
        !rest.contains('_'),
    ensures
        formatter::plain_text(p + rest) == p + formatter::plain_text(rest),
{
    formatter_laws::lemma_absent_in_sum(p, rest, '_');
    lemma_plain_stages(p + rest);
    lemma_plain_stages(rest);
    lemma_unstarred_behind(p, rest);
    lemma_after_stars_behind(p, unstarred(rest));
}

/// In plain text the markers of bold text are dropped, whatever follows.
pub proof fn plain_text_drops_bold(inner: Seq<char>, rest: Seq<char>)
    requires
        unmarked(inner),
        !inner.contains('_'),
        !rest.contains('_'),
    ensures
        formatter::plain_text("**"@ + inner + "**"@ + rest) == inner + formatter::plain_text(rest),
{
    reveal_strlit("**");
    let m = "**"@;
    formatter_laws::lemma_absent_in_sum(m, inner, '_');
    formatter_laws::lemma_absent_in_sum(m + inner, m, '_');
    formatter_laws::lemma_absent_in_sum(m + inner + m, rest, '_');
    lemma_plain_stages(m + inner + m + rest);
    lemma_plain_stages(rest);
    assert(m + inner + m + rest =~= m + (inner + (m + rest)));
    lemma_front_dropped(m, inner + (m + rest));
    lemma_unstarred_behind(inner, m + rest);
    lemma_front_dropped(m, rest);
    lemma_after_stars_behind(inner, unstarred(rest));
}

/// In plain text the markers of italics are dropped, whatever follows, unless that is a third
/// asterisk.
pub proof fn plain_text_drops_italics(inner: Seq<char>, rest: Seq<char>)
    requires
        unmarked(inner),
        inner.len() > 0,
        rest.len() == 0 || rest[0] != '*',
        !inner.contains('_'),
        !rest.contains('_'),
    ensures
        formatter::plain_text(seq!['*'] + inner + seq!['*'] + rest) == inner + formatter::plain_text(
            rest,
        ),
{
    reveal_strlit("**");
    let m = seq!['*'];
    let x = m + inner + m;
    formatter_laws::lemma_absent_in_sum(m, inner, '_');
    formatter_laws::lemma_absent_in_sum(m + inner, m, '_');
    formatter_laws::lemma_absent_in_sum(m + inner + m, rest, '_');
    lemma_plain_stages(x + rest);
    lemma_plain_stages(rest);
    lemma_starred_closed_off(inner, rest);
    table_laws::lemma_clear(x, rest, "**"@, ""@);
    let y = unstarred(rest);
    if rest.len() > 0 {
        let head = rest.take(1);
        assert(!head.contains('*')) by {
            if head.contains('*') {
                let k = choose|k: int| 0 <= k < head.len() && head[k] == '*';
                assert(head[k] == rest[0]);
            }
        }
        assert(rest =~= head + rest.skip(1));
        lemma_unstarred_behind(head, rest.skip(1));
        assert(y[0] == rest[0]);
    } else {
        assert forall|j: int| !#[trigger] text_laws::occurs(rest, "**"@, j) by {}
        text_laws::without_occurrence_nothing_is_replaced(rest, "**"@, ""@);
    }
    lemma_italic(inner);
    lemma_asterisks_sum(x, y, y.len());
    let z = formatter::asterisks_dropped(y, y.len());
    assert(formatter::asterisks_dropped(x + y, (x + y).len()) == inner + z);
    lemma_unticked_behind(inner, z);
    lemma_links_behind(inner, unticked(z), LinkStyle::Plain);
}

/// In plain text a link is its text with the address behind it in parentheses, whatever follows.
pub proof fn plain_text_spells_out_links(label: Seq<char>, url: Seq<char>, rest: Seq<char>)
    requires
        bare(label),
        bare(url),
        !label.contains('_'),
        !url.contains('_'),
        !rest.contains('_'),
    ensures
        formatter::plain_text("["@ + label + "]("@ + url + ")"@ + rest) == label + " ("@ + url
            + ")"@ + formatter::plain_text(rest),
{
    reveal_strlit("[");
    reveal_strlit("](");
    reveal_strlit(")");
    let x = "["@ + label + "]("@ + url + ")"@;
    formatter_laws::lemma_absent_in_sum("["@, label, '_');
    formatter_laws::lemma_absent_in_sum("["@ + label, "]("@, '_');
    formatter_laws::lemma_absent_in_sum("["@ + label + "]("@, url, '_');
    formatter_laws::lemma_absent_in_sum("["@ + label + "]("@ + url, ")"@, '_');
    formatter_laws::lemma_absent_in_sum(x, rest, '_');
    lemma_plain_stages(x + rest);
    lemma_plain_stages(rest);
    lemma_linked_absent(label, url, '*');
    lemma_linked_absent(label, url, '`');
    lemma_unstarred_behind(x, rest);
    let y = unstarred(rest);
    lemma_italics_behind(x, y);
    let z = formatter::asterisks_dropped(y, y.len());
    lemma_unticked_behind(x, z);
    lemma_front_link(label, url, unticked(z), LinkStyle::Plain);
}

/// In plain text the backticks of code are dropped, whatever follows.
pub proof fn plain_text_drops_backticks(inner: Seq<char>, rest: Seq<char>)
    requires
        unmarked(inner),
        !inner.contains('_'),
        !rest.contains('_'),
    ensures
        formatter::plain_text("`"@ + inner + "`"@ + rest) == inner + formatter::plain_text(rest),
{
    reveal_strlit("`");
    let m = "`"@;
    let x = m + inner + m;
    formatter_laws::lemma_absent_in_sum(m, inner, '_');
    formatter_laws::lemma_absent_in_sum(m + inner, m, '_');
    formatter_laws::lemma_absent_in_sum(m + inner + m, rest, '_');
    lemma_plain_stages(x + rest);
    lemma_plain_stages(rest);
    formatter_laws::lemma_absent_in_sum(m, inner, '*');
    formatter_laws::lemma_absent_in_sum(m + inner, m, '*');
    lemma_unstarred_behind(x, rest);
    let y = unstarred(rest);
    lemma_italics_behind(x, y);
    let z = formatter::asterisks_dropped(y, y.len());
    assert(x + z =~= m + (inner + (m + z)));
    lemma_front_dropped(m, inner + (m + z));
    lemma_unticked_behind(inner, m + z);
    lemma_front_dropped(m, z);
    lemma_links_behind(inner, unticked(z), LinkStyle::Plain);
}

/// Each channel gets the text in its own markup, and Markdown as it is.
pub proof fn each_channel_has_its_markup(s: Seq<char>)
    ensures
        formatter::formatted(s, OutputFormat::Markdown) == s,
        formatter::formatted(s, OutputFormat::DiscordMarkdown)
            == crate::discord_markdown::discord_markdown(s),
        formatter::formatted(s, OutputFormat::TelegramHtml) == formatter::telegram_html(s),
        formatter::formatted(s, OutputFormat::SlackMrkdwn) == formatter::slack_mrkdwn(s),
        formatter::formatted(s, OutputFormat::PlainText) == formatter::plain_text(s),
{
}

// ---------------------------------------------------------------- markers and links wherever they stand

/// The first two markers of a text become the replacements, whatever stands before, between and
/// behind them; then the text is looked at again.
pub proof fn the_first_two_markers_are_a_pair(
    a: Seq<char>,
    inner: Seq<char>,
    rest: Seq<char>,
    mark: Seq<char>,
    open: Seq<char>,
    close: Seq<char>,
)
    requires
        formatter::pair_shrinks(mark, open, close),
        forall|i: int|
            0 <= i < a.len() ==> !#[trigger] text_laws::occurs(
                a + mark + inner + mark + rest,
                mark,
                i,
            ),
        forall|i: int|
            a.len() + mark.len() <= i < a.len() + mark.len() + inner.len()
                ==> !#[trigger] text_laws::occurs(a + mark + inner + mark + rest, mark, i),
    ensures
        formatter::pairs_rewritten(a + mark + inner + mark + rest, mark, open, close)
            == formatter::pairs_rewritten(a + open + inner + close + rest, mark, open, close),
{
    let s = a + mark + inner + mark + rest;
    let n = a.len() as int;
    let m = mark.len() as int;
    let b = n + m + inner.len();
    lemma_pair_found(a, inner, rest, mark);
    assert(s.take(n) =~= a);
    assert(s.subrange(n + m, b) =~= inner);
    assert(s.skip(b + m) =~= rest);
    formatter::lemma_pair_count(s, mark, open, close, mark[0]);
}

proof fn lemma_pair_found(a: Seq<char>, inner: Seq<char>, rest: Seq<char>, mark: Seq<char>)
    requires
        mark.len() > 0,
        forall|i: int|
            0 <= i < a.len() ==> !#[trigger] text_laws::occurs(
                a + mark + inner + mark + rest,
                mark,
                i,
            ),
        forall|i: int|
            a.len() + mark.len() <= i < a.len() + mark.len() + inner.len()
                ==> !#[trigger] text_laws::occurs(a + mark + inner + mark + rest, mark, i),
    ensures
        text::find_from(a + mark + inner + mark + rest, mark, 0) == Some(a.len() as int),
        text::find_from(a + mark + inner + mark + rest, mark, a.len() as int + mark.len()) == Some(
            a.len() as int + mark.len() + inner.len(),
        ),
{
    let s = a + mark + inner + mark + rest;
    let n = a.len() as int;
    let m = mark.len() as int;
    let b = n + m + inner.len();
    let tail = inner + mark + rest;
    assert(s =~= a + (mark + tail));
    lemma_at_front(mark, tail);
    lemma_find_behind(a, mark + tail, mark, 0);
    lemma_find_later(s, mark, 0, n);
    let p = a + mark + inner;
    assert(s =~= p + (mark + rest));
    lemma_at_front(mark, rest);
    lemma_find_behind(p, mark + rest, mark, 0);
    lemma_find_later(s, mark, n + m, b);
}

/// A text in which no two markers stand apart keeps them.
pub proof fn lone_markers_stay(s: Seq<char>, mark: Seq<char>, open: Seq<char>, close: Seq<char>)
    requires
        mark.len() > 0,
        forall|i: int, j: int|
            #[trigger] text_laws::occurs(s, mark, i) && #[trigger] text_laws::occurs(s, mark, j)
                ==> j < i + mark.len(),
    ensures
        formatter::pairs_rewritten(s, mark, open, close) == s,
{
    text_laws::the_first_occurrence_is_found(s, mark, 0);
    if let Some(a) = text::find_from(s, mark, 0) {
        text_laws::the_first_occurrence_is_found(s, mark, a + mark.len());
        if let Some(b) = text::find_from(s, mark, a + mark.len()) {
            assert(text_laws::occurs(s, mark, a) && text_laws::occurs(s, mark, b));
        }
    }
}

/// The link that begins with the first `[`, goes on with the next `](` and ends with the next `)` is
/// rewritten, whatever stands before, within and behind it; then the text is looked at again.
pub proof fn the_first_link_is_rewritten(s: Seq<char>, a: int, b: int, c: int, style: LinkStyle)
    requires
        0 <= a < b,
        b + 2 <= c < s.len(),
        s[a] == '[',
        forall|i: int| 0 <= i < a ==> #[trigger] s[i] != '[',
        s[b] == ']' && s[b + 1] == '(',
        forall|i: int| a <= i < b ==> !#[trigger] text_laws::occurs(s, "]("@, i),
        s[c] == ')',
        forall|i: int| b + 2 <= i < c ==> #[trigger] s[i] != ')',
    ensures
        formatter::links_rewritten(s, style) == formatter::links_rewritten(
            s.subrange(0, a) + formatter::link(style, s.subrange(a + 1, b), s.subrange(b + 2, c))
                + s.subrange(c + 1, s.len() as int),
            style,
        ),
{
    reveal_strlit("[");
    reveal_strlit("](");
    reveal_strlit(")");
    text_laws::the_first_occurrence_is_found(s, "["@, 0);
    assert(text_laws::occurs(s, "["@, a));
    lemma_begins_nowhere(s, "["@, 0, a);
    text_laws::the_first_occurrence_is_found(s, "]("@, a);
    assert(text_laws::occurs(s, "]("@, b));
    text_laws::the_first_occurrence_is_found(s, ")"@, b + 2);
    assert(text_laws::occurs(s, ")"@, c));
    lemma_begins_nowhere(s, ")"@, b + 2, c);
    assert(s.take(a) =~= s.subrange(0, a));
    assert(s.skip(c + 1) =~= s.subrange(c + 1, s.len() as int));
    formatter::lemma_link_shrinks(s, style);
}

/// If the first `[` begins no link the text stays.
pub proof fn broken_links_stay(s: Seq<char>, a: int, b: int, style: LinkStyle)
    requires
        0 <= a < s.len(),
        s[a] == '[',
        forall|i: int| 0 <= i < a ==> #[trigger] s[i] != '[',
        a < b <= s.len(),
        forall|i: int| a <= i < b ==> !#[trigger] text_laws::occurs(s, "]("@, i),
        b < s.len() ==> b + 1 < s.len() && s[b] == ']' && s[b + 1] == '(' && forall|i: int|
            b + 2 <= i < s.len() ==> #[trigger] s[i] != ')',
    ensures
        formatter::links_rewritten(s, style) == s,
{
    reveal_strlit("[");
    reveal_strlit("](");
    reveal_strlit(")");
    text_laws::the_first_occurrence_is_found(s, "["@, 0);
    assert(text_laws::occurs(s, "["@, a));
    lemma_begins_nowhere(s, "["@, 0, a);
    text_laws::the_first_occurrence_is_found(s, "]("@, a);
    if b < s.len() {
        assert(text_laws::occurs(s, "]("@, b));
        text_laws::the_first_occurrence_is_found(s, ")"@, b + 2);
        lemma_begins_nowhere(s, ")"@, b + 2, s.len() as int);
        if let Some(c) = text::find_from(s, ")"@, b + 2) {
            assert(text_laws::occurs(s, ")"@, c));
        }
    } else if let Some(i) = text::find_from(s, "]("@, a) {
        assert(text_laws::occurs(s, "]("@, i));
        assert(i < b);
    }
}

/// The asterisk at `i` has no asterisk beside it.
pub open spec fn stands_alone(s: Seq<char>, i: int) -> bool {
    s[i] == '*' && !(i > 0 && s[i - 1] == '*') && !(i + 1 < s.len() && s[i + 1] == '*')
}

/// Asterisks that stand alone open and close italics by turns, or are dropped; every other character
/// stays, one after the other.
pub proof fn lone_asterisks_open_and_close(s: Seq<char>, n: nat)
    requires
        n < s.len(),
    ensures
        formatter::italics(s, 0) == Seq::<char>::empty(),
        formatter::asterisks_dropped(s, 0) == Seq::<char>::empty(),
        formatter::lone_asterisks(s, 0) == 0,
        !stands_alone(s, n as int) ==> {
            &&& formatter::italics(s, n + 1) == formatter::italics(s, n) + seq![s[n as int]]
            &&& formatter::asterisks_dropped(s, n + 1) == formatter::asterisks_dropped(s, n) + seq![
                s[n as int],
            ]
            &&& formatter::lone_asterisks(s, n + 1) == formatter::lone_asterisks(s, n)
        },
        stands_alone(s, n as int) ==> {
            &&& formatter::lone_asterisks(s, n) % 2 == 0 ==> formatter::italics(s, n + 1)
                == formatter::italics(s, n) + "<i>"@
            &&& formatter::lone_asterisks(s, n) % 2 == 1 ==> formatter::italics(s, n + 1)
                == formatter::italics(s, n) + "</i>"@
            &&& formatter::asterisks_dropped(s, n + 1) == formatter::asterisks_dropped(s, n)
            &&& formatter::lone_asterisks(s, n + 1) == formatter::lone_asterisks(s, n) + 1
        },
{
    let c = s[n as int];
    assert(formatter::italics(s, n).push(c) =~= formatter::italics(s, n) + seq![c]);
    assert(formatter::asterisks_dropped(s, n).push(c) =~= formatter::asterisks_dropped(s, n)
        + seq![c]);
}

/// On every channel the markers are taken in turn: on Telegram escapes, bold, italics, code and links,
/// on Slack bold and links, in plain text underscores, bold, italics, code and links.
pub proof fn markers_are_taken_in_turn(s: Seq<char>)
    ensures
        ({
            let bold = formatter::pairs_rewritten(
                formatter::html_escaped(s),
                "**"@,
                "<b>"@,
                "</b>"@,
            );
            let code = formatter::pairs_rewritten(
                formatter::italics(bold, bold.len()),
                "`"@,
                "<code>"@,
                "</code>"@,
            );
            formatter::telegram_html(s) == formatter::links_rewritten(code, LinkStyle::Html)
        }),
        formatter::slack_mrkdwn(s) == formatter::links_rewritten(
            formatter::pairs_rewritten(s, "**"@, "*"@, "*"@),
            LinkStyle::Slack,
        ),
        ({
            let bold = text::replaced(emphasis::emphasis_dropped(s), "**"@, ""@);
            let italic = formatter::asterisks_dropped(bold, bold.len());
            formatter::plain_text(s) == formatter::links_rewritten(
                text::replaced(italic, "`"@, ""@),
                LinkStyle::Plain,
            )
        }),
{
}

} // verus!
