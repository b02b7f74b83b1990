//! What plain text keeps: code and addresses as they are, and every character that marks nothing.

use crate::emphasis;
use crate::formatter;
use crate::formatter::LinkStyle;
use crate::formatter_laws;
use crate::literal;
use crate::text;
use vstd::prelude::*;

verus! {

// ---------------------------------------------------------------- characters that are left out

/// The text without its asterisks and backticks.
pub open spec fn bare(s: Seq<char>) -> Seq<char> {
    s.filter(|c: char| c != '*' && c != '`')
}

proof fn lemma_bare_sum(a: Seq<char>, b: Seq<char>)
    ensures
        bare(a + b) == bare(a) + bare(b),
{
    Seq::filter_distributes_over_add(a, b, |c: char| c != '*' && c != '`');
}

proof fn lemma_bare_kept(s: Seq<char>)
    requires
        !s.contains('*'),
        !s.contains('`'),
    ensures
        bare(s) == s,
    decreases s.len(),
{
    reveal(Seq::filter);
    if s.len() > 0 {
        let front = s.drop_last();
        assert(s.contains(s[s.len() - 1]));
        assert(front =~= s.subrange(0, s.len() - 1));
        formatter_laws::lemma_absent_in_part(s, 0, s.len() - 1, '*');
        formatter_laws::lemma_absent_in_part(s, 0, s.len() - 1, '`');
        lemma_bare_kept(front);
        assert(s =~= front.push(s.last()));
    }
}

proof fn lemma_bare_dropped(s: Seq<char>)
    requires
        forall|i: int| 0 <= i < s.len() ==> #[trigger] s[i] == '*' || s[i] == '`',
    ensures
        bare(s) == Seq::<char>::empty(),
    decreases s.len(),
{
    reveal(Seq::filter);
    if s.len() > 0 {
        assert(s[s.len() - 1] == '*' || s[s.len() - 1] == '`');
        lemma_bare_dropped(s.drop_last());
    }
}

proof fn lemma_bare_replaced(s: Seq<char>, pat: Seq<char>)
    requires
        pat.len() > 0,
        forall|i: int| 0 <= i < pat.len() ==> #[trigger] pat[i] == '*' || pat[i] == '`',
    ensures
        bare(text::replaced(s, pat, Seq::empty())) == bare(s),
    decreases s.len(),
{
    text::lemma_find_from(s, pat, 0);
    if let Some(i) = text::find_from(s, pat, 0) {
        let head = s.take(i);
        let rest = s.skip(i + pat.len());
        let tail = text::replaced(rest, pat, Seq::empty());
        lemma_bare_replaced(rest, pat);
        assert(s =~= head + pat + rest) by {
            assert(s.subrange(i, i + pat.len()) == pat);
            assert(s =~= head + s.subrange(i, i + pat.len()) + rest);
        }
        assert(head + Seq::<char>::empty() + tail =~= head + tail);
        lemma_bare_sum(head + pat, rest);
        lemma_bare_sum(head, pat);
        lemma_bare_dropped(pat);
        lemma_bare_sum(head, tail);
        assert(bare(head) + Seq::<char>::empty() + bare(rest) =~= bare(head) + bare(rest));
    }
}

proof fn lemma_bare_asterisks(s: Seq<char>, n: nat)
    requires
        n <= s.len(),
    ensures
        bare(formatter::asterisks_dropped(s, n)) == bare(s.take(n as int)),
    decreases n,
{
    if n == 0 {
        assert(s.take(0) =~= Seq::<char>::empty());
    } else {
        let c = s[n - 1];
        let before = formatter::asterisks_dropped(s, (n - 1) as nat);
        lemma_bare_asterisks(s, (n - 1) as nat);
        assert(s.take(n as int) =~= s.take(n - 1) + seq![c]);
        lemma_bare_sum(s.take(n - 1), seq![c]);
        if formatter::lone_asterisk(s, n - 1) {
            lemma_bare_dropped(seq![c]);
            assert(bare(s.take(n - 1)) + Seq::<char>::empty() =~= bare(s.take(n - 1)));
        } else {
            assert(before.push(c) =~= before + seq![c]);
            lemma_bare_sum(before, seq![c]);
        }
    }
}

/// Without links plain text is the text without the underscores of emphasis, without asterisks and
/// without backticks; all other characters stay in order.
pub proof fn plain_text_without_links(s: Seq<char>)
    requires
        !s.contains('['),
    ensures
        formatter::plain_text(s) == bare(emphasis::emphasis_dropped(s)),
        emphasis::no_emphasis(s) ==> formatter::plain_text(s) == bare(s),
{
    reveal_strlit("**");
    reveal_strlit("`");
    reveal_strlit("");
    assert("**"@ =~= seq!['*', '*']);
    assert("`"@ =~= seq!['`']);
    assert(""@ =~= Seq::<char>::empty());
    let kept = emphasis::emphasis_dropped(s);
    let unbold = text::replaced(kept, "**"@, ""@);
    let unitalic = formatter::asterisks_dropped(unbold, unbold.len());
    let out = text::replaced(unitalic, "`"@, ""@);
    lemma_bare_replaced(kept, "**"@);
    lemma_bare_asterisks(unbold, unbold.len());
    assert(unbold.take(unbold.len() as int) =~= unbold);
    lemma_bare_replaced(unitalic, "`"@);
    formatter_laws::lemma_doubles_dropped(kept);
    formatter_laws::lemma_lone_dropped(unbold, unbold.len());
    formatter_laws::lemma_replaced_absent(unitalic, '`', ""@, '`');
    formatter_laws::lemma_replaced_absent(unitalic, '`', ""@, '*');
    lemma_bare_kept(out);
    emphasis::only_underscores_are_dropped(s, '[');
    assert(!out.contains('[')) by {
        if out.contains('[') {
            let k = choose|k: int| 0 <= k < out.len() && out[k] == '[';
            lemma_bare_holds(kept, '[');
            assert(bare(kept).contains('['));
        }
    }
    formatter_laws::lemma_unmarked_links(out, LinkStyle::Plain);
    if emphasis::no_emphasis(s) {
        emphasis::text_without_emphasis_is_kept(s);
    }
}

proof fn lemma_bare_holds(s: Seq<char>, d: char)
    ensures
        bare(s).contains(d) ==> s.contains(d),
    decreases s.len(),
{
    reveal(Seq::filter);
    if s.len() > 0 {
        let front = s.drop_last();
        lemma_bare_holds(front, d);
        if bare(s).contains(d) {
            let k = choose|k: int| 0 <= k < bare(s).len() && bare(s)[k] == d;
            if k < bare(front).len() {
                assert(bare(front)[k] == d);
                let j = choose|j: int| 0 <= j < front.len() && front[j] == d;
                assert(s[j] == d);
            } else {
                assert(s[s.len() - 1] == d);
            }
        }
    }
}

// ---------------------------------------------------------------- code

/// A row of `n` backticks.
pub open spec fn ticks(n: nat) -> Seq<char> {
    Seq::new(n, |i: int| '`')
}

proof fn lemma_row(s: Seq<char>, i: int, n: nat)
    requires
        0 <= i,
        i + n <= s.len(),
        forall|k: int| i <= k < i + n ==> s[k] == '`',
        i + n == s.len() || s[i + n] != '`',
    ensures
        literal::ticks_at(s, i) == n,
    decreases n,
{
    if n > 0 {
        lemma_row(s, i + 1, (n - 1) as nat);
    }
}

proof fn lemma_next_row(s: Seq<char>, n: nat, from: int, j: int)
    requires
        0 <= from <= j < s.len(),
        forall|k: int| from <= k < j ==> s[k] != '`',
        literal::ticks_at(s, j) == n,
        n > 0,
    ensures
        literal::closing_ticks(s, n, from) == Some(j),
    decreases j - from,
{
    if from < j {
        lemma_next_row(s, n, from + 1, j);
    }
}

/// What stands between two rows of as many backticks, a code span or a fenced block, is kept as it
/// is.
pub proof fn plain_text_keeps_fenced_code(c: Seq<char>, n: nat)
    requires
        !c.contains('*'),
        !c.contains('`'),
        !c.contains('['),
        c.len() > 0,
        n > 0,
    ensures
        formatter::plain_text(ticks(n) + c + ticks(n)) == c,
{
    let s = ticks(n) + c + ticks(n);
    let j = (n + c.len()) as int;
    assert forall|k: int| n <= k < j implies s[k] != '`' by {
        assert(c.contains(c[k - n]));
    }
    lemma_row(s, 0, n);
    lemma_row(s, j, n);
    lemma_next_row(s, n, n as int, j);
    assert forall|i: int| 0 <= i < s.len() && #[trigger] s[i] == '_' implies literal::literal(
        s,
        i,
    ) by {
        assert(literal::in_code(s, i));
    }
    emphasis::literal_underscores_are_kept(s);
    assert(!s.contains('[')) by {
        if s.contains('[') {
            let k = choose|k: int| 0 <= k < s.len() && s[k] == '[';
            assert(n <= k < j);
            assert(c.contains(c[k - n]));
        }
    }
    plain_text_without_links(s);
    lemma_bare_sum(ticks(n) + c, ticks(n));
    lemma_bare_sum(ticks(n), c);
    lemma_bare_dropped(ticks(n));
    lemma_bare_kept(c);
    assert(Seq::<char>::empty() + c + Seq::<char>::empty() =~= c);
}

/// Code is kept as it is, underscores included.
pub proof fn plain_text_keeps_code(c: Seq<char>)
    requires
        !c.contains('*'),
        !c.contains('`'),
        !c.contains('['),
    ensures
        formatter::plain_text(seq!['`'] + c + seq!['`']) == c,
{
    assert(ticks(1) =~= seq!['`']);
    if c.len() > 0 {
        plain_text_keeps_fenced_code(c, 1);
    } else {
        let s = seq!['`'] + c + seq!['`'];
        emphasis::text_without_underscores_is_kept(s);
        plain_text_without_links(s);
        lemma_bare_dropped(s);
        assert(c =~= Seq::<char>::empty());
    }
}

// ---------------------------------------------------------------- addresses

/// The text holds no asterisk, no backtick and no bracket of either kind.
pub open spec fn unbracketed(t: Seq<char>) -> bool {
    forall|i: int|
        0 <= i < t.len() ==> {
            let c = #[trigger] t[i];
            c != '*' && c != '`' && c != '[' && c != ']' && c != '(' && c != ')'
        }
}

/// A link in Markdown.
pub open spec fn markdown_link(label: Seq<char>, url: Seq<char>) -> Seq<char> {
    seq!['['] + label + seq![']', '('] + url + seq![')']
}

/// What stands before a character of the link's text says the same of it as without the link.
proof fn lemma_before(label: Seq<char>, url: Seq<char>, i: int)
    requires
        unbracketed(label),
        0 <= i < label.len(),
    ensures
        ({
            let s = markdown_link(label, url);
            &&& !literal::address_open(s, i + 1)
            &&& !literal::address_open(label, i)
            &&& literal::scheme_before(s, i + 1) == literal::scheme_before(label, i)
            &&& literal::tag_open(s, i + 1) == literal::tag_open(label, i)
            &&& literal::escaped(s, i + 1) == literal::escaped(label, i)
            &&& emphasis::bracket_before(s, i + 1) == Some(0int)
            &&& emphasis::bracket_before(label, i) is None
        }),
    decreases i,
{
    let s = markdown_link(label, url);
    assert(s[0] == '[');
    assert(s[i + 1] == label[i]);
    if i == 0 {
        reveal_with_fuel(literal::address_open, 2);
        reveal_with_fuel(literal::scheme_before, 2);
        reveal_with_fuel(literal::tag_open, 2);
        reveal_with_fuel(literal::escaped, 2);
    } else {
        assert(s[i] == label[i - 1]);
        if i >= 2 {
            assert(s[i - 1] == label[i - 2]);
        }
        if i >= 3 {
            assert(s[i - 2] == label[i - 3]);
        }
        lemma_before(label, url, i - 1);
    }
}

/// What stands behind a character of the link's text says the same of it as without the link.
proof fn lemma_behind(label: Seq<char>, url: Seq<char>, i: int)
    requires
        unbracketed(label),
        0 <= i <= label.len(),
    ensures
        ({
            let s = markdown_link(label, url);
            &&& literal::trails(s, i + 1) == literal::trails(label, i)
            &&& literal::tag_closed(s, i + 1) == literal::tag_closed(label, i)
            &&& emphasis::bracket_after(s, i + 1) == Some((label.len() + 1) as int)
            &&& emphasis::bracket_after(label, i) is None
        }),
    decreases label.len() - i,
{
    let s = markdown_link(label, url);
    if i < label.len() {
        assert(s[i + 1] == label[i]);
        lemma_behind(label, url, i + 1);
    } else {
        assert(s[i + 1] == ']');
    }
}

proof fn lemma_no_ticks(label: Seq<char>, url: Seq<char>)
    requires
        unbracketed(label),
        unbracketed(url),
    ensures
        !label.contains('`') && !label.contains('*') && !label.contains('['),
        !markdown_link(label, url).contains('`') && !markdown_link(label, url).contains('*'),
{
}

/// The characters of the address are taken as they are.
proof fn lemma_in_url(label: Seq<char>, url: Seq<char>, i: int)
    requires
        unbracketed(url),
        label.len() + 3 <= i <= label.len() + 3 + url.len(),
    ensures
        literal::address_open(markdown_link(label, url), i),
        literal::in_address(markdown_link(label, url), i),
    decreases i,
{
    let s = markdown_link(label, url);
    let n = (label.len() + 3) as int;
    assert(s[n - 2] == ']' && s[n - 1] == '(');
    if i > n {
        assert(s[i - 1] == url[i - 1 - n]);
        lemma_in_url(label, url, i - 1);
    }
    assert(s[s.len() - 1] == ')');
    assert(s.skip(i)[s.len() - 1 - i] == ')');
}

/// A character of the link's text is taken as it is if and only if it is without the link.
proof fn lemma_literal(label: Seq<char>, url: Seq<char>, i: int)
    requires
        unbracketed(label),
        unbracketed(url),
        0 <= i < label.len(),
    ensures
        literal::literal(markdown_link(label, url), i + 1) == literal::literal(label, i),
        emphasis::link_text_end(markdown_link(label, url), i + 1) == Some((label.len() + 1) as int),
        emphasis::link_text_end(label, i) is None,
{
    lemma_before(label, url, i);
    lemma_behind(label, url, i);
    lemma_no_ticks(label, url);
    emphasis::lemma_no_ticks_no_code(markdown_link(label, url), i + 1);
    emphasis::lemma_no_ticks_no_code(label, i);
    lemma_in_url(label, url, (label.len() + 3) as int);
}

proof fn lemma_number(label: Seq<char>, url: Seq<char>, k: int, b: int)
    requires
        0 <= k <= b < label.len(),
        label[b] == '_',
    ensures
        emphasis::number_ends(markdown_link(label, url), k + 1) == emphasis::number_ends(label, k),
    decreases b - k,
{
    let s = markdown_link(label, url);
    assert(s[k + 1] == label[k]);
    if k < b {
        assert(s[k + 2] == label[k + 1]);
        lemma_number(label, url, k + 1, b);
    }
}

/// Within the link's text paragraphs end as they do without the link.
proof fn lemma_paragraph(label: Seq<char>, url: Seq<char>, k: int, b: int)
    requires
        unbracketed(label),
        0 <= k <= b < label.len(),
        label[b] == '_',
    ensures
        emphasis::ends_paragraph(markdown_link(label, url), k + 1) == emphasis::ends_paragraph(
            label,
            k,
        ),
    decreases b - k,
{
    let s = markdown_link(label, url);
    assert(s[k + 1] == label[k]);
    if k < b {
        assert(s[k + 2] == label[k + 1]);
        lemma_paragraph(label, url, k + 1, b);
        lemma_number(label, url, k + 1, b);
        assert(emphasis::gap_at(s, k + 2) == emphasis::gap_at(label, k + 1));
        assert(emphasis::starts_block(s, k + 1) == emphasis::starts_block(label, k));
    }
}

proof fn lemma_same_paragraph(label: Seq<char>, url: Seq<char>, i: int, b: int)
    requires
        unbracketed(label),
        0 <= i <= b < label.len(),
        label[b] == '_',
    ensures
        emphasis::same_paragraph(markdown_link(label, url), i + 1, b + 1)
            == emphasis::same_paragraph(label, i, b),
{
    let s = markdown_link(label, url);
    assert forall|k: int| i <= k < b implies emphasis::paragraph_ends(s, k + 1)
        == #[trigger] emphasis::paragraph_ends(label, k) by {
        assert(s[k + 1] == label[k]);
        lemma_paragraph(label, url, k + 1, b);
    }
    if emphasis::same_paragraph(s, i + 1, b + 1) {
        assert forall|k: int| i <= k < b implies !#[trigger] emphasis::paragraph_ends(label, k) by {
            assert(!emphasis::paragraph_ends(s, k + 1));
        }
    }
    if emphasis::same_paragraph(label, i, b) {
        assert forall|k: int| i + 1 <= k < b + 1 implies !#[trigger] emphasis::paragraph_ends(
            s,
            k,
        ) by {
            assert(!emphasis::paragraph_ends(label, k - 1));
        }
    }
}

proof fn lemma_run(label: Seq<char>, url: Seq<char>, i: int, m: int)
    requires
        0 <= i < label.len(),
    ensures
        emphasis::run_at(markdown_link(label, url), i + 1, m) == emphasis::run_at(label, i, m),
{
    let s = markdown_link(label, url);
    let n = label.len() as int;
    assert(forall|k: int| 0 <= k < n ==> s[k + 1] == #[trigger] label[k]);
    assert(s[0] == '[');
    assert(s[n + 1] == ']');
    if emphasis::run_at(s, i + 1, m) {
        if i + m > n {
            assert(s[n + 1] == '_');
        }
        assert forall|k: int| i <= k < i + m implies label[k] == '_' by {
            assert(s[k + 1] == '_');
        }
    }
    if emphasis::run_at(label, i, m) {
        assert forall|k: int| i + 1 <= k < i + 1 + m implies s[k] == '_' by {
            assert(label[k - 1] == '_');
        }
    }
}

/// Markers belong together in the link if and only if they do so in its text.
proof fn lemma_pairs(label: Seq<char>, url: Seq<char>, a: int, b: int, m: int)
    requires
        unbracketed(label),
        unbracketed(url),
        0 < m,
    ensures
        emphasis::pairs(markdown_link(label, url), a + 1, b + 1, m) == emphasis::pairs(
            label,
            a,
            b,
            m,
        ),
{
    let s = markdown_link(label, url);
    let n = label.len() as int;
    if emphasis::pairs(s, a + 1, b + 1, m) {
        lemma_marker_place(label, url, a + 1);
        lemma_marker_place(label, url, b + 1);
    }
    if emphasis::pairs(s, a + 1, b + 1, m) || emphasis::pairs(label, a, b, m) {
        assert(0 <= a && a + m <= b && b < n);
        lemma_run(label, url, a, m);
        lemma_run(label, url, b, m);
        assert(emphasis::run_at(label, a, m) && emphasis::run_at(label, b, m));
        assert(label[b] == '_');
        lemma_literal(label, url, a);
        lemma_literal(label, url, b);
        lemma_same_paragraph(label, url, a + m, b);
        assert(s[0] == '[');
        assert(a > 0 ==> s[a] == label[a - 1]);
        assert(s[a + m + 1] == label[a + m]);
        assert(s[b] == label[b - 1]);
        if b + m < n {
            assert(s[b + m + 1] == label[b + m]);
        } else {
            assert(s[b + m + 1] == ']');
        }
    }
}

/// A marker of the link stands in its text.
proof fn lemma_marker_place(label: Seq<char>, url: Seq<char>, i: int)
    requires
        unbracketed(url),
        0 <= i < markdown_link(label, url).len(),
        markdown_link(label, url)[i] == '_',
        !literal::literal(markdown_link(label, url), i),
    ensures
        1 <= i <= label.len(),
{
    let s = markdown_link(label, url);
    let n = label.len() as int;
    if i > n {
        assert(s[n + 1] == ']' && s[n + 2] == '(' && s[s.len() - 1] == ')');
        lemma_in_url(label, url, i);
    }
}

/// The first pair of the link is that of its text.
proof fn lemma_link_pair(label: Seq<char>, url: Seq<char>, m: int)
    requires
        unbracketed(label),
        unbracketed(url),
        0 < m,
    ensures
        match emphasis::first_pair(label, m, 0) {
            Some(p) => emphasis::first_pair(markdown_link(label, url), m, 0) == Some(
                (p.0 + 1, p.1 + 1),
            ),
            None => emphasis::first_pair(markdown_link(label, url), m, 0) is None,
        },
{
    let s = markdown_link(label, url);
    emphasis::lemma_first_pair(label, m, 0);
    emphasis::lemma_first_pair(s, m, 0);
    assert forall|x: int, y: int| #[trigger]
        emphasis::pairs(s, x, y, m) implies emphasis::pairs(label, x - 1, y - 1, m) by {
        lemma_pairs(label, url, x - 1, y - 1, m);
    }
    if let Some(p) = emphasis::first_pair(label, m, 0) {
        lemma_pairs(label, url, p.0, p.1, m);
        emphasis::lemma_pair_is_first(s, m, p.0 + 1, p.1 + 1);
    }
}

/// Dropping a pair of the link drops it in its text.
proof fn lemma_link_pair_dropped(label: Seq<char>, url: Seq<char>, m: int)
    requires
        unbracketed(label),
        unbracketed(url),
        0 < m,
    ensures
        match emphasis::pair_dropped(label, m) {
            Some(t) => emphasis::pair_dropped(markdown_link(label, url), m) == Some(
                markdown_link(t, url),
            ) && unbracketed(t),
            None => emphasis::pair_dropped(markdown_link(label, url), m) is None,
        },
{
    lemma_link_pair(label, url, m);
    emphasis::lemma_first_pair(label, m, 0);
    if let Some(p) = emphasis::first_pair(label, m, 0) {
        assert(emphasis::run_at(label, p.0, m) && emphasis::run_at(label, p.1, m));
        lemma_cut_link(label, url, p.0, p.1, m);
    }
}

/// What is cut out of the link's text is cut out of the link.
proof fn lemma_cut_link(label: Seq<char>, url: Seq<char>, a: int, b: int, m: int)
    requires
        unbracketed(label),
        0 < m,
        0 <= a,
        a + m <= b,
        b + m <= label.len(),
    ensures
        ({
            let s = markdown_link(label, url);
            let t = label.take(a) + label.subrange(a + m, b) + label.skip(b + m);
            &&& s.take(a + 1) + s.subrange(a + 1 + m, b + 1) + s.skip(b + 1 + m) == markdown_link(
                t,
                url,
            )
            &&& unbracketed(t)
        }),
{
    let s = markdown_link(label, url);
    let t = label.take(a) + label.subrange(a + m, b) + label.skip(b + m);
    assert(s.take(a + 1) =~= seq!['['] + label.take(a));
    assert(s.subrange(a + 1 + m, b + 1) =~= label.subrange(a + m, b));
    assert(s.skip(b + 1 + m) =~= label.skip(b + m) + seq![']', '('] + url + seq![')']);
    assert(s.take(a + 1) + s.subrange(a + 1 + m, b + 1) + s.skip(b + 1 + m) =~= markdown_link(
        t,
        url,
    ));
    assert forall|k: int| 0 <= k < t.len() implies {
        let c = #[trigger] t[k];
        c != '*' && c != '`' && c != '[' && c != ']' && c != '(' && c != ')'
    } by {
        assert(t[k] == label[emphasis::came_from(k, a, b, m)]);
    }
}

/// The link loses the emphasis of its text, and nothing else.
proof fn lemma_link_emphasis(label: Seq<char>, url: Seq<char>)
    requires
        unbracketed(label),
        unbracketed(url),
    ensures
        emphasis::emphasis_dropped(markdown_link(label, url)) == markdown_link(
            emphasis::emphasis_dropped(label),
            url,
        ),
        unbracketed(emphasis::emphasis_dropped(label)),
    decreases label.len(),
{
    lemma_link_pair_dropped(label, url, 3);
    lemma_link_pair_dropped(label, url, 2);
    lemma_link_pair_dropped(label, url, 1);
    emphasis::lemma_dropped_is_emphasis(label);
    emphasis::lemma_dropped_is_emphasis(markdown_link(label, url));
    if let Some(t) = emphasis::first_emphasis_dropped(label) {
        assert(emphasis::first_emphasis_dropped(markdown_link(label, url)) == Some(
            markdown_link(t, url),
        ));
        lemma_link_emphasis(t, url);
    }
}

proof fn lemma_one_link(label: Seq<char>, url: Seq<char>)
    requires
        unbracketed(label),
        unbracketed(url),
    ensures
        formatter::links_rewritten(markdown_link(label, url), LinkStyle::Plain) == label + " ("@
            + url + ")"@,
{
    reveal_strlit("[");
    reveal_strlit("](");
    reveal_strlit(")");
    reveal_strlit(" (");
    assert("["@ =~= seq!['[']);
    assert("]("@ =~= seq![']', '(']);
    assert(")"@ =~= seq![')']);
    let s = markdown_link(label, url);
    let n = label.len() as int;
    let c = n + 3 + url.len();
    text::lemma_find_from(s, "["@, 0);
    formatter_laws::lemma_char_stands(s, '[', 0);
    assert(text::find_from(s, "["@, 0) == Some(0int));
    text::lemma_find_from(s, "]("@, 0);
    assert(s.subrange(n + 1, n + 3) =~= seq![']', '(']);
    assert(text::stands_at(s, "]("@, n + 1));
    let b = text::find_from(s, "]("@, 0)->0;
    assert(s.subrange(b, b + 2)[0] == ']');
    assert(s[b] == ']');
    assert(b == n + 1) by {
        if b < n + 1 {
            if b > 0 {
                assert(s[b] == label[b - 1]);
            }
        }
    }
    text::lemma_find_from(s, ")"@, b + 2);
    formatter_laws::lemma_char_stands(s, ')', c);
    let e = text::find_from(s, ")"@, b + 2)->0;
    formatter_laws::lemma_char_stands(s, ')', e);
    assert(e == c) by {
        if e < c {
            assert(s[e] == url[e - n - 3]);
        }
    }
    assert(s.subrange(1, b) =~= label);
    assert(s.subrange(b + 2, c) =~= url);
    assert(s.skip(c + 1) =~= Seq::<char>::empty());
    assert(s.take(0) =~= Seq::<char>::empty());
    let t = label + " ("@ + url + ")"@;
    assert(formatter::first_link_rewritten(s, LinkStyle::Plain)->0 =~= t);
    formatter::lemma_link_shrinks(s, LinkStyle::Plain);
    assert(!t.contains('['));
    formatter_laws::lemma_unmarked_links(t, LinkStyle::Plain);
}

/// A link becomes its text, as plain text, with the address as it is in parentheses.
pub proof fn plain_text_keeps_addresses(label: Seq<char>, url: Seq<char>)
    requires
        unbracketed(label),
        unbracketed(url),
    ensures
        formatter::plain_text("["@ + label + "]("@ + url + ")"@) == formatter::plain_text(label)
            + " ("@ + url + ")"@,
{
    reveal_strlit("[");
    reveal_strlit("](");
    reveal_strlit(")");
    reveal_strlit("**");
    reveal_strlit("`");
    assert("["@ + label + "]("@ + url + ")"@ =~= markdown_link(label, url));
    lemma_link_emphasis(label, url);
    lemma_no_ticks(label, url);
    let shown = emphasis::emphasis_dropped(label);
    lemma_no_ticks(shown, url);
    let s = markdown_link(shown, url);
    formatter_laws::lemma_absent_is_not_found(s, "**"@, 0);
    formatter_laws::lemma_no_asterisk_dropped(s, s.len());
    assert(s.take(s.len() as int) =~= s);
    formatter_laws::lemma_absent_is_not_found(s, "`"@, 0);
    lemma_one_link(shown, url);
    formatter_laws::unmarked_text_is_kept(label);
}

} // verus!
