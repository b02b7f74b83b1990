//! What holds of every formatted text.

use crate::discord_markdown;
use crate::emphasis;
use crate::formatter;
use crate::formatter::{LinkStyle, OutputFormat};
use crate::text;
use vstd::prelude::*;

verus! {

// ---------------------------------------------------------------- occurrences

pub(crate) proof fn lemma_char_stands(s: Seq<char>, c: char, i: int)
    requires
        0 <= i < s.len(),
    ensures
        text::stands_at(s, seq![c], i) == (s[i] == c),
{
    assert(s.subrange(i, i + 1) =~= seq![s[i]]);
    assert(seq![c][0] == c);
    assert(seq![s[i]][0] == s[i]);
}

pub(crate) proof fn lemma_absent_is_not_found(s: Seq<char>, pat: Seq<char>, from: int)
    requires
        0 <= from,
        pat.len() > 0,
        !s.contains(pat[0]),
    ensures
        text::find_from(s, pat, from) is None,
{
    text::lemma_find_from(s, pat, from);
    if let Some(i) = text::find_from(s, pat, from) {
        assert(s.subrange(i, i + pat.len())[0] == pat[0]);
        assert(s[i] == pat[0]);
    }
}

pub(crate) proof fn lemma_absent_in_sum(a: Seq<char>, b: Seq<char>, d: char)
    requires
        !a.contains(d),
        !b.contains(d),
    ensures
        !(a + b).contains(d),
{
    if (a + b).contains(d) {
        let i = choose|i: int| 0 <= i < (a + b).len() && (a + b)[i] == d;
        if i < a.len() {
            assert(a[i] == d);
        } else {
            assert(b[i - a.len()] == d);
        }
    }
}

pub(crate) proof fn lemma_absent_in_part(s: Seq<char>, i: int, j: int, d: char)
    requires
        0 <= i <= j <= s.len(),
        !s.contains(d),
    ensures
        !s.subrange(i, j).contains(d),
{
    if s.subrange(i, j).contains(d) {
        let k = choose|k: int| 0 <= k < s.subrange(i, j).len() && s.subrange(i, j)[k] == d;
        assert(s[i + k] == d);
    }
}

pub(crate) proof fn lemma_replaced_absent(s: Seq<char>, c: char, with: Seq<char>, d: char)
    requires
        !with.contains(d),
        d == c || !s.contains(d),
    ensures
        !text::replaced(s, seq![c], with).contains(d),
    decreases s.len(),
{
    let pat = seq![c];
    text::lemma_find_from(s, pat, 0);
    match text::find_from(s, pat, 0) {
        Some(i) => {
            let head = s.take(i);
            let rest = s.skip(i + 1);
            assert(!head.contains(d)) by {
                if head.contains(d) {
                    let k = choose|k: int| 0 <= k < head.len() && head[k] == d;
                    assert(s[k] == d);
                    lemma_char_stands(s, c, k);
                }
            }
            assert(d == c || !rest.contains(d)) by {
                if rest.contains(d) {
                    let k = choose|k: int| 0 <= k < rest.len() && rest[k] == d;
                    assert(s[i + 1 + k] == d);
                }
            }
            lemma_replaced_absent(rest, c, with, d);
            lemma_absent_in_sum(head, with, d);
            lemma_absent_in_sum(head + with, text::replaced(rest, pat, with), d);
        },
        None => {
            if s.contains(d) {
                let k = choose|k: int| 0 <= k < s.len() && s[k] == d;
                lemma_char_stands(s, c, k);
            }
        },
    }
}

// ---------------------------------------------------------------- what is left unchanged

/// Markdown passes through unchanged.
pub proof fn markdown_passes_through(s: Seq<char>)
    ensures
        formatter::formatted(s, OutputFormat::Markdown) == s,
{
}

/// The text holds none of the characters that begin a link or a marker other than underscores.
pub open spec fn unmarked(s: Seq<char>) -> bool {
    !s.contains('*') && !s.contains('`') && !s.contains('[')
}

pub(crate) proof fn lemma_unmarked_links(s: Seq<char>, style: LinkStyle)
    requires
        !s.contains('['),
    ensures
        formatter::links_rewritten(s, style) == s,
{
    reveal_strlit("[");
    lemma_absent_is_not_found(s, "["@, 0);
}

proof fn lemma_unmarked_pairs(s: Seq<char>, mark: Seq<char>, open: Seq<char>, close: Seq<char>)
    requires
        mark.len() > 0,
        !s.contains(mark[0]),
    ensures
        formatter::pairs_rewritten(s, mark, open, close) == s,
{
    lemma_absent_is_not_found(s, mark, 0);
}

pub(crate) proof fn lemma_no_asterisk_dropped(s: Seq<char>, n: nat)
    requires
        !s.contains('*'),
        n <= s.len(),
    ensures
        formatter::asterisks_dropped(s, n) == s.take(n as int),
        formatter::italics(s, n) == s.take(n as int),
    decreases n,
{
    if n > 0 {
        lemma_no_asterisk_dropped(s, (n - 1) as nat);
        assert(s[n - 1] != '*');
        assert(s.take(n as int) =~= s.take(n - 1).push(s[n - 1]));
    } else {
        assert(s.take(0) =~= Seq::<char>::empty());
    }
}

/// A text without markers is the same on Slack and only escaped on Telegram; plain text drops
/// nothing of it but the underscores of emphasis.
pub proof fn unmarked_text_is_kept(s: Seq<char>)
    requires
        unmarked(s),
    ensures
        formatter::formatted(s, OutputFormat::SlackMrkdwn) == s,
        formatter::formatted(s, OutputFormat::TelegramHtml) == formatter::html_escaped(s),
        formatter::formatted(s, OutputFormat::PlainText) == emphasis::emphasis_dropped(s),
        emphasis::no_emphasis(s) ==> formatter::formatted(s, OutputFormat::PlainText) == s,
{
    reveal_strlit("**");
    reveal_strlit("`");
    reveal_strlit("[");
    reveal_strlit("");
    reveal_strlit("&");
    reveal_strlit("<");
    reveal_strlit(">");
    reveal_strlit("&amp;");
    reveal_strlit("&lt;");
    reveal_strlit("&gt;");
    assert(s.take(s.len() as int) =~= s);
    lemma_unmarked_pairs(s, "**"@, "*"@, "*"@);
    lemma_unmarked_links(s, LinkStyle::Slack);
    let kept = emphasis::emphasis_dropped(s);
    emphasis::only_underscores_are_dropped(s, '*');
    emphasis::only_underscores_are_dropped(s, '`');
    emphasis::only_underscores_are_dropped(s, '[');
    assert(kept.take(kept.len() as int) =~= kept);
    lemma_absent_is_not_found(kept, "**"@, 0);
    lemma_no_asterisk_dropped(kept, kept.len());
    lemma_absent_is_not_found(kept, "`"@, 0);
    lemma_unmarked_links(kept, LinkStyle::Plain);
    if emphasis::no_emphasis(s) {
        emphasis::text_without_emphasis_is_kept(s);
    }
    assert("&"@ =~= seq!['&']);
    assert("<"@ =~= seq!['<']);
    assert(">"@ =~= seq!['>']);
    let e1 = text::replaced(s, "&"@, "&amp;"@);
    let e2 = text::replaced(e1, "<"@, "&lt;"@);
    let e = formatter::html_escaped(s);
    lemma_replaced_absent(s, '&', "&amp;"@, '*');
    lemma_replaced_absent(s, '&', "&amp;"@, '`');
    lemma_replaced_absent(s, '&', "&amp;"@, '[');
    lemma_replaced_absent(e1, '<', "&lt;"@, '*');
    lemma_replaced_absent(e1, '<', "&lt;"@, '`');
    lemma_replaced_absent(e1, '<', "&lt;"@, '[');
    lemma_replaced_absent(e2, '>', "&gt;"@, '*');
    lemma_replaced_absent(e2, '>', "&gt;"@, '`');
    lemma_replaced_absent(e2, '>', "&gt;"@, '[');
    assert(e.take(e.len() as int) =~= e);
    lemma_unmarked_pairs(e, "**"@, "<b>"@, "</b>"@);
    lemma_no_asterisk_dropped(e, e.len());
    lemma_unmarked_pairs(e, "`"@, "<code>"@, "</code>"@);
    lemma_unmarked_links(e, LinkStyle::Html);
}

// ---------------------------------------------------------------- escaping

/// How a character is written in HTML.
pub open spec fn entity(c: char) -> Seq<char> {
    if c == '&' {
        "&amp;"@
    } else if c == '<' {
        "&lt;"@
    } else if c == '>' {
        "&gt;"@
    } else {
        seq![c]
    }
}

/// A text with each character written as HTML has it.
pub open spec fn entities(s: Seq<char>) -> Seq<char>
    decreases s.len(),
{
    if s.len() == 0 {
        Seq::empty()
    } else {
        entities(s.drop_last()) + entity(s.last())
    }
}

spec fn exchanged(s: Seq<char>, c: char, with: Seq<char>) -> Seq<char>
    decreases s.len(),
{
    if s.len() == 0 {
        Seq::empty()
    } else {
        exchanged(s.drop_last(), c, with) + if s.last() == c {
            with
        } else {
            seq![s.last()]
        }
    }
}

proof fn lemma_exchanged_one(x: char, c: char, with: Seq<char>)
    ensures
        exchanged(seq![x], c, with) == if x == c {
            with
        } else {
            seq![x]
        },
{
    reveal_with_fuel(exchanged, 2);
    assert(seq![x].drop_last() =~= Seq::<char>::empty());
    assert(Seq::<char>::empty() + with =~= with);
    assert(Seq::<char>::empty() + seq![x] =~= seq![x]);
}

proof fn lemma_exchanged_sum(a: Seq<char>, b: Seq<char>, c: char, with: Seq<char>)
    ensures
        exchanged(a + b, c, with) == exchanged(a, c, with) + exchanged(b, c, with),
    decreases b.len(),
{
    if b.len() == 0 {
        assert(a + b =~= a);
        assert(exchanged(a, c, with) + exchanged(b, c, with) =~= exchanged(a, c, with));
    } else {
        lemma_exchanged_sum(a, b.drop_last(), c, with);
        assert((a + b).drop_last() =~= a + b.drop_last());
        assert((a + b).last() == b.last());
        assert(exchanged(a + b, c, with) =~= exchanged(a, c, with) + exchanged(b, c, with));
    }
}

proof fn lemma_exchanged_absent(s: Seq<char>, c: char, with: Seq<char>)
    requires
        !s.contains(c),
    ensures
        exchanged(s, c, with) == s,
    decreases s.len(),
{
    if s.len() > 0 {
        lemma_absent_in_part(s, 0, s.len() - 1, c);
        assert(s.drop_last() =~= s.subrange(0, s.len() - 1));
        lemma_exchanged_absent(s.drop_last(), c, with);
        assert(s[s.len() - 1] != c);
        assert(s.drop_last() + seq![s.last()] =~= s);
    }
}

proof fn lemma_replaced_exchanged(s: Seq<char>, c: char, with: Seq<char>)
    ensures
        text::replaced(s, seq![c], with) == exchanged(s, c, with),
    decreases s.len(),
{
    let pat = seq![c];
    text::lemma_find_from(s, pat, 0);
    match text::find_from(s, pat, 0) {
        Some(i) => {
            let head = s.take(i);
            let rest = s.skip(i + 1);
            assert(!head.contains(c)) by {
                if head.contains(c) {
                    let k = choose|k: int| 0 <= k < head.len() && head[k] == c;
                    lemma_char_stands(s, c, k);
                }
            }
            lemma_char_stands(s, c, i);
            lemma_exchanged_absent(head, c, with);
            lemma_replaced_exchanged(rest, c, with);
            lemma_exchanged_sum(head, seq![c], c, with);
            lemma_exchanged_sum(head + seq![c], rest, c, with);
            assert(head + seq![c] + rest =~= s);
            lemma_exchanged_one(c, c, with);
        },
        None => {
            if s.contains(c) {
                let k = choose|k: int| 0 <= k < s.len() && s[k] == c;
                lemma_char_stands(s, c, k);
            }
            lemma_exchanged_absent(s, c, with);
        },
    }
}

proof fn lemma_entity(c: char)
    ensures
        exchanged(exchanged(exchanged(seq![c], '&', "&amp;"@), '<', "&lt;"@), '>', "&gt;"@)
            == entity(c),
{
    reveal_strlit("&amp;");
    reveal_strlit("&lt;");
    reveal_strlit("&gt;");
    lemma_exchanged_one(c, '&', "&amp;"@);
    lemma_exchanged_one(c, '<', "&lt;"@);
    lemma_exchanged_one(c, '>', "&gt;"@);
    if c == '&' {
        assert(!"&amp;"@.contains('<'));
        lemma_exchanged_absent("&amp;"@, '<', "&lt;"@);
        assert(!"&amp;"@.contains('>'));
        lemma_exchanged_absent("&amp;"@, '>', "&gt;"@);
    } else if c == '<' {
        assert(!"&lt;"@.contains('>'));
        lemma_exchanged_absent("&lt;"@, '>', "&gt;"@);
    }
}

/// Escaping a text escapes each of its characters once, whatever stands around it.
pub proof fn escaping_is_by_character(s: Seq<char>)
    ensures
        formatter::html_escaped(s) == entities(s),
    decreases s.len(),
{
    reveal_strlit("&");
    reveal_strlit("<");
    reveal_strlit(">");
    assert("&"@ =~= seq!['&']);
    assert("<"@ =~= seq!['<']);
    assert(">"@ =~= seq!['>']);
    let e1 = exchanged(s, '&', "&amp;"@);
    let e2 = exchanged(e1, '<', "&lt;"@);
    lemma_replaced_exchanged(s, '&', "&amp;"@);
    lemma_replaced_exchanged(e1, '<', "&lt;"@);
    lemma_replaced_exchanged(e2, '>', "&gt;"@);
    if s.len() > 0 {
        let front = s.drop_last();
        let last = seq![s.last()];
        assert(s =~= front + last);
        escaping_is_by_character(front);
        let f1 = exchanged(front, '&', "&amp;"@);
        let f2 = exchanged(f1, '<', "&lt;"@);
        lemma_replaced_exchanged(front, '&', "&amp;"@);
        lemma_replaced_exchanged(f1, '<', "&lt;"@);
        lemma_replaced_exchanged(f2, '>', "&gt;"@);
        let l1 = exchanged(last, '&', "&amp;"@);
        let l2 = exchanged(l1, '<', "&lt;"@);
        lemma_exchanged_sum(front, last, '&', "&amp;"@);
        lemma_exchanged_sum(f1, l1, '<', "&lt;"@);
        lemma_exchanged_sum(f2, l2, '>', "&gt;"@);
        lemma_entity(s.last());
    }
}

// ---------------------------------------------------------------- what is left over

/// Rewriting pairs of markers leaves no pair.
pub proof fn no_pair_is_left(s: Seq<char>, mark: Seq<char>, open: Seq<char>, close: Seq<char>)
    requires
        formatter::pair_shrinks(mark, open, close),
    ensures
        formatter::first_pair_rewritten(
            formatter::pairs_rewritten(s, mark, open, close),
            mark,
            open,
            close,
        ) is None,
    decreases text::count(s, mark[0]),
{
    formatter::lemma_pair_count(s, mark, open, close, mark[0]);
    if let Some(t) = formatter::first_pair_rewritten(s, mark, open, close) {
        no_pair_is_left(t, mark, open, close);
    }
}

/// Rewriting links leaves no link at the first bracket.
pub proof fn no_link_is_left(s: Seq<char>, style: LinkStyle)
    ensures
        formatter::first_link_rewritten(formatter::links_rewritten(s, style), style) is None,
    decreases text::count(s, '['),
{
    formatter::lemma_link_shrinks(s, style);
    if let Some(t) = formatter::first_link_rewritten(s, style) {
        no_link_is_left(t, style);
    }
}

/// Slack's form has nothing left to rewrite.
pub proof fn slack_has_no_link_left(s: Seq<char>)
    ensures
        formatter::first_link_rewritten(formatter::slack_mrkdwn(s), LinkStyle::Slack) is None,
        formatter::links_rewritten(formatter::slack_mrkdwn(s), LinkStyle::Slack)
            == formatter::slack_mrkdwn(s),
{
    no_link_is_left(formatter::pairs_rewritten(s, "**"@, "*"@, "*"@), LinkStyle::Slack);
}

/// No link is left in plain text: its first `[` begins none.
pub proof fn plain_text_has_no_link_left(s: Seq<char>)
    ensures
        formatter::first_link_rewritten(formatter::plain_text(s), LinkStyle::Plain) is None,
{
    let unbold = text::replaced(emphasis::emphasis_dropped(s), "**"@, ""@);
    let unitalic = formatter::asterisks_dropped(unbold, unbold.len());
    no_link_is_left(text::replaced(unitalic, "`"@, ""@), LinkStyle::Plain);
}

// ---------------------------------------------------------------- plain text

/// No two asterisks stand side by side.
pub open spec fn asterisks_apart(s: Seq<char>) -> bool {
    forall|i: int| 0 <= i < s.len() - 1 ==> !(#[trigger] s[i] == '*' && s[i + 1] == '*')
}

proof fn lemma_double_stands(s: Seq<char>, i: int)
    requires
        0 <= i < s.len() - 1,
        s[i] == '*',
        s[i + 1] == '*',
    ensures
        text::stands_at(s, seq!['*', '*'], i),
{
    assert(s.subrange(i, i + 2) =~= seq!['*', '*']);
}

pub(crate) proof fn lemma_doubles_dropped(s: Seq<char>)
    ensures
        asterisks_apart(text::replaced(s, seq!['*', '*'], Seq::empty())),
    decreases s.len(),
{
    let pat = seq!['*', '*'];
    text::lemma_find_from(s, pat, 0);
    match text::find_from(s, pat, 0) {
        Some(i) => {
            let head = s.take(i);
            let rest = s.skip(i + 2);
            let tail = text::replaced(rest, pat, Seq::empty());
            lemma_doubles_dropped(rest);
            let whole = head + Seq::<char>::empty() + tail;
            assert(whole =~= head + tail);
            assert(s.subrange(i, i + 2)[0] == '*');
            assert(s[i] == '*');
            assert forall|k: int| 0 <= k < whole.len() - 1 implies !(#[trigger] whole[k] == '*'
                && whole[k + 1] == '*') by {
                if k + 1 < i {
                    assert(whole[k] == s[k] && whole[k + 1] == s[k + 1]);
                    if s[k] == '*' && s[k + 1] == '*' {
                        lemma_double_stands(s, k);
                    }
                } else if k + 1 == i {
                    assert(whole[k] == s[k]);
                    if s[k] == '*' {
                        lemma_double_stands(s, k);
                    }
                } else {
                    assert(whole[k] == tail[k - i] && whole[k + 1] == tail[k - i + 1]);
                }
            }
        },
        None => {
            assert forall|k: int| 0 <= k < s.len() - 1 implies !(#[trigger] s[k] == '*' && s[k + 1]
                == '*') by {
                if s[k] == '*' && s[k + 1] == '*' {
                    lemma_double_stands(s, k);
                }
            }
        },
    }
}

pub(crate) proof fn lemma_lone_dropped(s: Seq<char>, n: nat)
    requires
        asterisks_apart(s),
        n <= s.len(),
    ensures
        !formatter::asterisks_dropped(s, n).contains('*'),
    decreases n,
{
    if n > 0 {
        lemma_lone_dropped(s, (n - 1) as nat);
        let before = formatter::asterisks_dropped(s, (n - 1) as nat);
        if s[n - 1] == '*' {
            if n - 1 > 0 {
                assert(!(s[n - 2] == '*' && s[n - 2 + 1] == '*'));
            }
            assert(formatter::lone_asterisk(s, n - 1));
        } else {
            assert(!seq![s[n - 1]].contains('*'));
            lemma_absent_in_sum(before, seq![s[n - 1]], '*');
            assert(before.push(s[n - 1]) =~= before + seq![s[n - 1]]);
        }
    }
}

proof fn lemma_links_add_nothing(s: Seq<char>, d: char)
    requires
        !s.contains(d),
        d == '*' || d == '`',
    ensures
        !formatter::links_rewritten(s, LinkStyle::Plain).contains(d),
    decreases text::count(s, '['),
{
    formatter::lemma_link_shrinks(s, LinkStyle::Plain);
    if let Some(t) = formatter::first_link_rewritten(s, LinkStyle::Plain) {
        reveal_strlit("[");
        reveal_strlit("](");
        reveal_strlit(")");
        reveal_strlit(" (");
        text::lemma_find_from(s, "["@, 0);
        let a = text::find_from(s, "["@, 0)->0;
        text::lemma_find_from(s, "]("@, a);
        let b = text::find_from(s, "]("@, a)->0;
        text::lemma_find_from(s, ")"@, b + 2);
        let c = text::find_from(s, ")"@, b + 2)->0;
        formatter::lemma_link_parts(s, a, b, c);
        let label = s.subrange(a + 1, b);
        let url = s.subrange(b + 2, c);
        lemma_absent_in_part(s, 0, a, d);
        lemma_absent_in_part(s, a + 1, b, d);
        lemma_absent_in_part(s, b + 2, c, d);
        lemma_absent_in_part(s, c + 1, s.len() as int, d);
        assert(s.take(a) =~= s.subrange(0, a));
        assert(s.skip(c + 1) =~= s.subrange(c + 1, s.len() as int));
        lemma_absent_in_sum(label, " ("@, d);
        lemma_absent_in_sum(label + " ("@, url, d);
        lemma_absent_in_sum(label + " ("@ + url, ")"@, d);
        let link = formatter::link(LinkStyle::Plain, label, url);
        lemma_absent_in_sum(s.take(a), link, d);
        lemma_absent_in_sum(s.take(a) + link, s.skip(c + 1), d);
        lemma_links_add_nothing(t, d);
    }
}

/// Plain text holds no marker for bold, italics or code: no asterisk and no backtick. The underscores
/// of emphasis are gone before these are dropped; where there is no code and no link, none is left.
pub proof fn plain_text_has_no_markers(s: Seq<char>)
    ensures
        !formatter::plain_text(s).contains('*'),
        !formatter::plain_text(s).contains('`'),
        emphasis::no_emphasis(emphasis::emphasis_dropped(s)),
        unmarked(s) ==> emphasis::no_emphasis(formatter::plain_text(s)),
{
    reveal_strlit("**");
    reveal_strlit("`");
    reveal_strlit("");
    assert("**"@ =~= seq!['*', '*']);
    assert("`"@ =~= seq!['`']);
    assert(""@ =~= Seq::<char>::empty());
    let kept = emphasis::emphasis_dropped(s);
    let unbold = text::replaced(kept, "**"@, ""@);
    lemma_doubles_dropped(kept);
    lemma_lone_dropped(unbold, unbold.len());
    let unitalic = formatter::asterisks_dropped(unbold, unbold.len());
    lemma_replaced_absent(unitalic, '`', ""@, '`');
    lemma_replaced_absent(unitalic, '`', ""@, '*');
    let bare = text::replaced(unitalic, "`"@, ""@);
    lemma_links_add_nothing(bare, '*');
    lemma_links_add_nothing(bare, '`');
    emphasis::no_emphasis_is_left(s);
    if unmarked(s) {
        unmarked_text_is_kept(s);
    }
}

// ---------------------------------------------------------------- Telegram

/// The tags that are written for Telegram.
pub open spec fn telegram_tags() -> Seq<Seq<char>> {
    seq!["<b>"@, "</b>"@, "<i>"@, "</i>"@, "<code>"@, "</code>"@, "<a href=\""@, "</a>"@]
}

/// One of the tags stands at a position.
pub open spec fn tag_at(s: Seq<char>, i: int) -> bool {
    exists|t: int|
        0 <= t < telegram_tags().len() && text::stands_at(s, #[trigger] telegram_tags()[t], i)
}

/// Every opening angle bracket begins one of the tags.
pub open spec fn only_tags(s: Seq<char>) -> bool {
    forall|i: int| 0 <= i < s.len() && #[trigger] s[i] == '<' ==> tag_at(s, i)
}

/// A character that occurs in no tag.
spec fn untagged(c: char) -> bool {
    c == '*' || c == '`' || c == '[' || c == ']' || c == ')'
}

proof fn lemma_tag_chars(t: int, k: int)
    requires
        0 <= t < telegram_tags().len(),
        0 <= k < telegram_tags()[t].len(),
    ensures
        !untagged(telegram_tags()[t][k]),
        telegram_tags()[t][k] == '<' ==> k == 0,
{
    reveal_strlit("<b>");
    reveal_strlit("</b>");
    reveal_strlit("<i>");
    reveal_strlit("</i>");
    reveal_strlit("<code>");
    reveal_strlit("</code>");
    reveal_strlit("<a href=\"");
    reveal_strlit("</a>");
}

proof fn lemma_tag_alone(t: int)
    requires
        0 <= t < telegram_tags().len(),
    ensures
        only_tags(telegram_tags()[t]),
{
    let tag = telegram_tags()[t];
    assert forall|i: int| 0 <= i < tag.len() && #[trigger] tag[i] == '<' implies tag_at(tag, i) by {
        lemma_tag_chars(t, i);
        assert(tag.subrange(0, tag.len() as int) =~= tag);
        assert(text::stands_at(tag, telegram_tags()[t], 0));
    }
}

proof fn lemma_no_bracket(s: Seq<char>)
    requires
        !s.contains('<'),
    ensures
        only_tags(s),
{
    assert forall|i: int| 0 <= i < s.len() && #[trigger] s[i] == '<' implies tag_at(s, i) by {
        assert(s.contains('<'));
    }
}

proof fn lemma_tags_sum(a: Seq<char>, b: Seq<char>)
    requires
        only_tags(a),
        only_tags(b),
    ensures
        only_tags(a + b),
{
    let s = a + b;
    assert forall|i: int| 0 <= i < s.len() && #[trigger] s[i] == '<' implies tag_at(s, i) by {
        if i < a.len() {
            assert(a[i] == '<');
            assert(tag_at(a, i));
            let t = choose|t: int|
                0 <= t < telegram_tags().len() && text::stands_at(
                    a,
                    #[trigger] telegram_tags()[t],
                    i,
                );
            let n = telegram_tags()[t].len();
            assert(s.subrange(i, i + n) =~= a.subrange(i, i + n));
            assert(text::stands_at(s, telegram_tags()[t], i));
        } else {
            let k = i - a.len();
            assert(b[k] == '<');
            assert(tag_at(b, k));
            let t = choose|t: int|
                0 <= t < telegram_tags().len() && text::stands_at(
                    b,
                    #[trigger] telegram_tags()[t],
                    k,
                );
            let n = telegram_tags()[t].len();
            assert(s.subrange(i, i + n) =~= b.subrange(k, k + n));
            assert(text::stands_at(s, telegram_tags()[t], i));
        }
    }
}

proof fn lemma_tags_part(s: Seq<char>, i: int, j: int)
    requires
        only_tags(s),
        0 <= i <= j <= s.len(),
        j < s.len() ==> untagged(s[j]),
    ensures
        only_tags(s.subrange(i, j)),
{
    let p = s.subrange(i, j);
    assert forall|k: int| 0 <= k < p.len() && #[trigger] p[k] == '<' implies tag_at(p, k) by {
        assert(s[i + k] == '<');
        assert(tag_at(s, i + k));
        let t = choose|t: int|
            0 <= t < telegram_tags().len() && text::stands_at(
                s,
                #[trigger] telegram_tags()[t],
                i + k,
            );
        let tag = telegram_tags()[t];
        let n = tag.len();
        if i + k + n > j {
            assert(s.subrange(i + k, i + k + n)[j - i - k] == s[j]);
            lemma_tag_chars(t, j - i - k);
        }
        assert(p.subrange(k, k + n) =~= s.subrange(i + k, i + k + n));
        assert(text::stands_at(p, telegram_tags()[t], k));
    }
}

proof fn lemma_tags_pairs(s: Seq<char>, mark: Seq<char>, open: Seq<char>, close: Seq<char>)
    requires
        formatter::pair_shrinks(mark, open, close),
        untagged(mark[0]),
        only_tags(s),
        only_tags(open),
        only_tags(close),
    ensures
        only_tags(formatter::pairs_rewritten(s, mark, open, close)),
    decreases text::count(s, mark[0]),
{
    formatter::lemma_pair_count(s, mark, open, close, mark[0]);
    if let Some(t) = formatter::first_pair_rewritten(s, mark, open, close) {
        let m = mark.len() as int;
        text::lemma_find_from(s, mark, 0);
        let a = text::find_from(s, mark, 0)->0;
        text::lemma_find_from(s, mark, a + m);
        let b = text::find_from(s, mark, a + m)->0;
        assert(s.subrange(a, a + m)[0] == s[a]);
        assert(s.subrange(b, b + m)[0] == s[b]);
        let inner = s.subrange(a + m, b);
        let tail = s.skip(b + m);
        lemma_tags_part(s, 0, a);
        lemma_tags_part(s, a + m, b);
        lemma_tags_part(s, b + m, s.len() as int);
        assert(s.take(a) =~= s.subrange(0, a));
        assert(tail =~= s.subrange(b + m, s.len() as int));
        lemma_tags_sum(s.take(a), open);
        lemma_tags_sum(s.take(a) + open, inner);
        lemma_tags_sum(s.take(a) + open + inner, close);
        lemma_tags_sum(s.take(a) + open + inner + close, tail);
        lemma_tags_pairs(t, mark, open, close);
    }
}

/// `m` counts down to the last lone asterisk before `n`.
proof fn lemma_tags_italics(s: Seq<char>, n: int, m: int)
    requires
        only_tags(s),
        0 <= m <= n <= s.len(),
        n < s.len() ==> untagged(s[n]),
        formatter::italics(s, n as nat) == formatter::italics(s, m as nat) + s.subrange(m, n),
    ensures
        only_tags(formatter::italics(s, n as nat)),
    decreases m,
{
    if m == 0 {
        lemma_tags_part(s, 0, n);
        assert(formatter::italics(s, n as nat) =~= s.subrange(0, n));
    } else if formatter::lone_asterisk(s, m - 1) {
        assert(formatter::italics(s, (m - 1) as nat) + s.subrange(m - 1, m - 1)
            =~= formatter::italics(s, (m - 1) as nat));
        lemma_tags_italics(s, m - 1, m - 1);
        lemma_tag_alone(2);
        lemma_tag_alone(3);
        lemma_tags_sum(formatter::italics(s, (m - 1) as nat), "<i>"@);
        lemma_tags_sum(formatter::italics(s, (m - 1) as nat), "</i>"@);
        lemma_tags_part(s, m, n);
        lemma_tags_sum(formatter::italics(s, m as nat), s.subrange(m, n));
    } else {
        assert(formatter::italics(s, (m - 1) as nat).push(s[m - 1]) + s.subrange(m, n)
            =~= formatter::italics(s, (m - 1) as nat) + s.subrange(m - 1, n));
        lemma_tags_italics(s, n, m - 1);
    }
}

proof fn lemma_tags_links(s: Seq<char>)
    requires
        only_tags(s),
    ensures
        only_tags(formatter::links_rewritten(s, LinkStyle::Html)),
    decreases text::count(s, '['),
{
    formatter::lemma_link_shrinks(s, LinkStyle::Html);
    if let Some(t) = formatter::first_link_rewritten(s, LinkStyle::Html) {
        reveal_strlit("[");
        reveal_strlit("](");
        reveal_strlit(")");
        reveal_strlit("\">");
        text::lemma_find_from(s, "["@, 0);
        let a = text::find_from(s, "["@, 0)->0;
        text::lemma_find_from(s, "]("@, a);
        let b = text::find_from(s, "]("@, a)->0;
        text::lemma_find_from(s, ")"@, b + 2);
        let c = text::find_from(s, ")"@, b + 2)->0;
        formatter::lemma_link_parts(s, a, b, c);
        assert(s.subrange(a, a + 1)[0] == s[a]);
        assert(s.subrange(b, b + 2)[0] == s[b]);
        assert(s.subrange(c, c + 1)[0] == s[c]);
        let label = s.subrange(a + 1, b);
        let url = s.subrange(b + 2, c);
        lemma_tags_part(s, 0, a);
        lemma_tags_part(s, a + 1, b);
        lemma_tags_part(s, b + 2, c);
        lemma_tags_part(s, c + 1, s.len() as int);
        assert(s.take(a) =~= s.subrange(0, a));
        assert(s.skip(c + 1) =~= s.subrange(c + 1, s.len() as int));
        lemma_tag_alone(6);
        lemma_tag_alone(7);
        lemma_no_bracket("\">"@);
        let p = "<a href=\""@;
        lemma_tags_sum(p, url);
        lemma_tags_sum(p + url, "\">"@);
        lemma_tags_sum(p + url + "\">"@, label);
        lemma_tags_sum(p + url + "\">"@ + label, "</a>"@);
        let link = formatter::link(LinkStyle::Html, label, url);
        lemma_tags_sum(s.take(a), link);
        lemma_tags_sum(s.take(a) + link, s.skip(c + 1));
        lemma_tags_links(t);
    }
}

/// Telegram's form holds no tags but those that were written for its markup: whatever looked like a
/// tag in the text is escaped.
pub proof fn telegram_has_only_its_tags(s: Seq<char>)
    ensures
        only_tags(formatter::telegram_html(s)),
{
    reveal_strlit("&");
    reveal_strlit("<");
    reveal_strlit(">");
    reveal_strlit("&lt;");
    reveal_strlit("&gt;");
    reveal_strlit("**");
    reveal_strlit("`");
    assert("<"@ =~= seq!['<']);
    assert(">"@ =~= seq!['>']);
    let e1 = text::replaced(s, "&"@, "&amp;"@);
    let e2 = text::replaced(e1, "<"@, "&lt;"@);
    let e = formatter::html_escaped(s);
    lemma_replaced_absent(e1, '<', "&lt;"@, '<');
    lemma_replaced_absent(e2, '>', "&gt;"@, '<');
    lemma_no_bracket(e);
    lemma_tag_alone(0);
    lemma_tag_alone(1);
    lemma_tag_alone(4);
    lemma_tag_alone(5);
    formatter::lemma_bold_shrinks();
    formatter::lemma_code_shrinks();
    lemma_tags_pairs(e, "**"@, "<b>"@, "</b>"@);
    let bold = formatter::pairs_rewritten(e, "**"@, "<b>"@, "</b>"@);
    let n = bold.len() as int;
    assert(formatter::italics(bold, n as nat) + bold.subrange(n, n) =~= formatter::italics(
        bold,
        n as nat,
    ));
    lemma_tags_italics(bold, n, n);
    let italic = formatter::italics(bold, bold.len());
    lemma_tags_pairs(italic, "`"@, "<code>"@, "</code>"@);
    lemma_tags_links(formatter::pairs_rewritten(italic, "`"@, "<code>"@, "</code>"@));
}

// ---------------------------------------------------------------- Discord

/// What stands between fences is kept, line by line.
pub proof fn code_is_kept(lines: Seq<Seq<char>>, i: int, j: int)
    requires
        0 <= i <= j <= lines.len(),
        forall|k: int| i <= k < j ==> !discord_markdown::is_fence(#[trigger] lines[k]),
    ensures
        discord_markdown::discord_lines(lines, i, true) == lines.subrange(i, j)
            + discord_markdown::discord_lines(lines, j, true),
    decreases j - i,
{
    if i < j {
        code_is_kept(lines, i + 1, j);
        assert(!discord_markdown::is_fence(lines[i]));
        assert(lines.subrange(i, j) =~= seq![lines[i]] + lines.subrange(i + 1, j));
        assert(discord_markdown::discord_lines(lines, i, true) =~= lines.subrange(i, j)
            + discord_markdown::discord_lines(lines, j, true));
    } else {
        assert(lines.subrange(i, j) + discord_markdown::discord_lines(lines, j, true)
            =~= discord_markdown::discord_lines(lines, j, true));
    }
}

pub(crate) proof fn lemma_no_tag_to_drop(line: Seq<char>, tags: Seq<Seq<char>>)
    requires
        !line.contains('<'),
        forall|i: int| 0 <= i < tags.len() ==> (#[trigger] tags[i]).len() > 0 && tags[i][0] == '<',
    ensures
        discord_markdown::without_tags(line, tags) == line,
    decreases tags.len(),
{
    if tags.len() > 0 {
        let front = tags.drop_last();
        assert forall|i: int| 0 <= i < front.len() implies (#[trigger] front[i]).len() > 0
            && front[i][0] == '<' by {
            assert(front[i] == tags[i]);
        }
        lemma_no_tag_to_drop(line, front);
        assert(tags[tags.len() - 1].len() > 0);
        lemma_absent_is_not_found(line, tags.last(), 0);
    }
}

pub(crate) proof fn lemma_tags_open()
    ensures
        forall|i: int|
            0 <= i < discord_markdown::dropped_tags().len() ==> (
            #[trigger] discord_markdown::dropped_tags()[i]).len() > 0
                && discord_markdown::dropped_tags()[i][0] == '<',
{
    reveal_strlit("<br>");
    reveal_strlit("<br/>");
    reveal_strlit("<br />");
    reveal_strlit("<hr>");
    reveal_strlit("<hr/>");
    reveal_strlit("<hr />");
    reveal_strlit("<p>");
    reveal_strlit("</p>");
    reveal_strlit("<div>");
    reveal_strlit("</div>");
    reveal_strlit("<span>");
    reveal_strlit("</span>");
}

/// Lines without pipes and angle brackets are kept: a text that holds no table and no tag only has
/// its line endings made uniform.
pub proof fn ordinary_lines_are_kept(lines: Seq<Seq<char>>, i: int, in_code: bool)
    requires
        0 <= i <= lines.len(),
        forall|k: int|
            0 <= k < lines.len() ==> !(#[trigger] lines[k]).contains('|') && !lines[k].contains(
                '<',
            ),
    ensures
        discord_markdown::discord_lines(lines, i, in_code) == lines.skip(i),
    decreases lines.len() - i,
{
    if i < lines.len() {
        assert(!lines[i].contains('|'));
        lemma_tags_open();
        lemma_no_tag_to_drop(lines[i], discord_markdown::dropped_tags());
        ordinary_lines_are_kept(lines, i + 1, in_code);
        ordinary_lines_are_kept(lines, i + 1, !in_code);
        assert(lines.skip(i) =~= seq![lines[i]] + lines.skip(i + 1));
        assert(discord_markdown::discord_lines(lines, i, in_code) =~= lines.skip(i));
    } else {
        assert(discord_markdown::discord_lines(lines, i, in_code) =~= lines.skip(i));
    }
}

/// A table becomes a code block with a line for the header, a rule, and a line for each row.
pub proof fn tables_become_code_blocks(lines: Seq<Seq<char>>, i: int)
    requires
        0 <= i < lines.len(),
        !discord_markdown::is_fence(lines[i]),
        discord_markdown::table_at(lines, i),
    ensures
        ({
            let end = discord_markdown::rows_end(lines, i + 2);
            let block = discord_markdown::table_from(lines, i);
            &&& discord_markdown::discord_lines(lines, i, false) == block
                + discord_markdown::discord_lines(lines, end, false)
            &&& block.len() == end - i + 2
            &&& block[0] == "```"@
            &&& block.last() == "```"@
        }),
{
    discord_markdown::lemma_rows_end(lines, i + 2);
}

} // verus!
