//! Channel-specific message formatting.
//!
//! Converts standard Markdown into platform-specific markup:
//! - Discord: tables become monospace code blocks, some HTML tags are dropped
//! - Telegram HTML: `**bold**` becomes `<b>bold</b>`
//! - Slack mrkdwn: `**bold**` becomes `*bold*`, `[text](url)` becomes `<url|text>`
//! - Plain text: drops the markers for bold, italics and inline code, `[text](url)` becomes
//!   `text (url)`; headings, quotes, lists and strikethrough stay as they are

use crate::discord_markdown;
use crate::emphasis;
use crate::text;
use vstd::prelude::*;
use vstd::slice::slice_subrange;

verus! {

/// The markup that a channel understands.
#[derive(Clone, Copy, Debug, PartialEq, Eq)]
pub enum OutputFormat {
    Markdown,
    DiscordMarkdown,
    TelegramHtml,
    SlackMrkdwn,
    PlainText,
}

// ---------------------------------------------------------------- paired markers

/// `s` with its first pair of markers replaced by `open` and `close`; `None` if it has no pair.
pub open spec fn first_pair_rewritten(
    s: Seq<char>,
    mark: Seq<char>,
    open: Seq<char>,
    close: Seq<char>,
) -> Option<Seq<char>> {
    match text::find_from(s, mark, 0) {
        Some(a) => match text::find_from(s, mark, a + mark.len()) {
            Some(b) => Some(
                s.take(a) + open + s.subrange(a + mark.len() as int, b) + close + s.skip(
                    b + mark.len(),
                ),
            ),
            None => None,
        },
        None => None,
    }
}

/// `s` with its first pair of markers rewritten again and again until no pair is left.
///
/// The first character of the marker is what each rewriting leaves fewer of.
pub open spec fn pairs_rewritten(
    s: Seq<char>,
    mark: Seq<char>,
    open: Seq<char>,
    close: Seq<char>,
) -> Seq<char>
    decreases text::count(s, mark[0]),
{
    match first_pair_rewritten(s, mark, open, close) {
        Some(t) => if text::count(t, mark[0]) < text::count(s, mark[0]) {
            pairs_rewritten(t, mark, open, close)
        } else {
            t
        },
        None => s,
    }
}

/// The replacements hold fewer of the marker's first character than two markers do.
pub open spec fn pair_shrinks(mark: Seq<char>, open: Seq<char>, close: Seq<char>) -> bool {
    &&& mark.len() > 0
    &&& text::count(open, mark[0]) + text::count(close, mark[0]) < 2 * text::count(mark, mark[0])
}

/// Rewriting a pair exchanges two markers for the replacements.
pub proof fn lemma_pair_count(
    s: Seq<char>,
    mark: Seq<char>,
    open: Seq<char>,
    close: Seq<char>,
    c: char,
)
    ensures
        first_pair_rewritten(s, mark, open, close) matches Some(t) ==> text::count(t, c) + 2
            * text::count(mark, c) == text::count(s, c) + text::count(open, c) + text::count(
            close,
            c,
        ),
{
    text::lemma_find_from(s, mark, 0);
    if let Some(a) = text::find_from(s, mark, 0) {
        let m = mark.len() as int;
        text::lemma_find_from(s, mark, a + m);
        if let Some(b) = text::find_from(s, mark, a + m) {
            let inner = s.subrange(a + m, b);
            let tail = s.skip(b + m);
            text::lemma_count_add(s.take(a), open, c);
            text::lemma_count_add(s.take(a) + open, inner, c);
            text::lemma_count_add(s.take(a) + open + inner, close, c);
            text::lemma_count_add(s.take(a) + open + inner + close, tail, c);
            text::lemma_count_add(s.take(a), mark, c);
            text::lemma_count_add(s.take(a) + mark, inner, c);
            text::lemma_count_add(s.take(a) + mark + inner, mark, c);
            text::lemma_count_add(s.take(a) + mark + inner + mark, tail, c);
            assert(s.take(a) + mark + inner + mark + tail =~= s) by {
                assert(s.subrange(a, a + m) == mark);
                assert(s.subrange(b, b + m) == mark);
                assert forall|k: int| 0 <= k < s.len() implies s[k] == (s.take(a) + mark + inner
                    + mark + tail)[k] by {
                    if a <= k < a + m {
                        assert(s[k] == s.subrange(a, a + m)[k - a]);
                    }
                    if b <= k < b + m {
                        assert(s[k] == s.subrange(b, b + m)[k - b]);
                    }
                }
            }
        }
    }
}

/// Rewrites the first pair of markers until no pair is left.
fn rewrite_pairs(s: Vec<char>, mark: &[char], open: &[char], close: &[char]) -> (r: Vec<char>)
    requires
        pair_shrinks(mark@, open@, close@),
    ensures
        r@ == pairs_rewritten(s@, mark@, open@, close@),
{
    let mut cur: Vec<char> = s;
    loop
        invariant
            pair_shrinks(mark@, open@, close@),
            pairs_rewritten(cur@, mark@, open@, close@) == pairs_rewritten(
                s@,
                mark@,
                open@,
                close@,
            ),
        decreases text::count(cur@, mark@[0]),
    {
        let whole = cur.as_slice();
        match text::find(whole, mark, 0) {
            None => {
                return cur;
            },
            Some(a) => {
                match text::find(whole, mark, a + mark.len()) {
                    None => {
                        return cur;
                    },
                    Some(b) => {
                        let mut next: Vec<char> = Vec::new();
                        text::extend(&mut next, slice_subrange(whole, 0, a));
                        text::extend(&mut next, open);
                        text::extend(&mut next, slice_subrange(whole, a + mark.len(), b));
                        text::extend(&mut next, close);
                        text::extend(&mut next, slice_subrange(whole, b + mark.len(), cur.len()));
                        proof {
                            let t = first_pair_rewritten(cur@, mark@, open@, close@)->0;
                            assert(next@ =~= t);
                            lemma_pair_count(cur@, mark@, open@, close@, mark@[0]);
                        }
                        cur = next;
                    },
                }
            },
        }
    }
}

// ---------------------------------------------------------------- links

/// How a channel writes a link.
#[derive(Clone, Copy, Debug, PartialEq, Eq)]
pub enum LinkStyle {
    Html,
    Slack,
    Plain,
}

/// A link in the channel's notation.
pub open spec fn link(style: LinkStyle, label: Seq<char>, url: Seq<char>) -> Seq<char> {
    match style {
        LinkStyle::Html => "<a href=\""@ + url + "\">"@ + label + "</a>"@,
        LinkStyle::Slack => "<"@ + url + "|"@ + label + ">"@,
        LinkStyle::Plain => label + " ("@ + url + ")"@,
    }
}

/// `s` with its first `[label](url)` in the channel's notation; `None` if the first `[` begins no
/// link.
pub open spec fn first_link_rewritten(s: Seq<char>, style: LinkStyle) -> Option<Seq<char>> {
    match text::find_from(s, "["@, 0) {
        Some(a) => match text::find_from(s, "]("@, a) {
            Some(b) => match text::find_from(s, ")"@, b + 2) {
                Some(c) => Some(
                    s.take(a) + link(style, s.subrange(a + 1, b), s.subrange(b + 2, c)) + s.skip(
                        c + 1,
                    ),
                ),
                None => None,
            },
            None => None,
        },
        None => None,
    }
}

/// `s` with its first link rewritten again and again until the first `[` begins no link.
pub open spec fn links_rewritten(s: Seq<char>, style: LinkStyle) -> Seq<char>
    decreases text::count(s, '['),
{
    match first_link_rewritten(s, style) {
        Some(t) => if text::count(t, '[') < text::count(s, '[') {
            links_rewritten(t, style)
        } else {
            t
        },
        None => s,
    }
}

proof fn lemma_link_count(style: LinkStyle, label: Seq<char>, url: Seq<char>)
    ensures
        text::count(link(style, label, url), '[') == text::count(label, '[') + text::count(
            url,
            '[',
        ),
{
    reveal_strlit("<a href=\"");
    reveal_strlit("\">");
    reveal_strlit("</a>");
    reveal_strlit("<");
    reveal_strlit("|");
    reveal_strlit(">");
    reveal_strlit(" (");
    reveal_strlit(")");
    let c = '[';
    text::lemma_count_absent("<a href=\""@, c);
    text::lemma_count_absent("\">"@, c);
    text::lemma_count_absent("</a>"@, c);
    text::lemma_count_absent("<"@, c);
    text::lemma_count_absent("|"@, c);
    text::lemma_count_absent(">"@, c);
    text::lemma_count_absent(" ("@, c);
    text::lemma_count_absent(")"@, c);
    match style {
        LinkStyle::Html => {
            text::lemma_count_add("<a href=\""@, url, c);
            text::lemma_count_add("<a href=\""@ + url, "\">"@, c);
            text::lemma_count_add("<a href=\""@ + url + "\">"@, label, c);
            text::lemma_count_add("<a href=\""@ + url + "\">"@ + label, "</a>"@, c);
        },
        LinkStyle::Slack => {
            text::lemma_count_add("<"@, url, c);
            text::lemma_count_add("<"@ + url, "|"@, c);
            text::lemma_count_add("<"@ + url + "|"@, label, c);
            text::lemma_count_add("<"@ + url + "|"@ + label, ">"@, c);
        },
        LinkStyle::Plain => {
            text::lemma_count_add(label, " ("@, c);
            text::lemma_count_add(label + " ("@, url, c);
            text::lemma_count_add(label + " ("@ + url, ")"@, c);
        },
    }
}

/// The parts of `s` around the first link that starts at `a`.
pub proof fn lemma_link_parts(s: Seq<char>, a: int, b: int, c: int)
    requires
        text::stands_at(s, "["@, a),
        text::stands_at(s, "]("@, b),
        text::stands_at(s, ")"@, c),
        a <= b,
        b + 2 <= c,
    ensures
        a < b,
        c < s.len(),
        text::count(s, '[') == text::count(s.take(a), '[') + 1 + text::count(
            s.subrange(a + 1, b),
            '[',
        ) + text::count(s.subrange(b + 2, c), '[') + text::count(s.skip(c + 1), '['),
{
    reveal_strlit("[");
    reveal_strlit("](");
    reveal_strlit(")");
    assert(s[a] == s.subrange(a, a + 1)[0]);
    assert(s[b] == s.subrange(b, b + 2)[0]);
    assert(s[b + 1] == s.subrange(b, b + 2)[1]);
    assert(s[c] == s.subrange(c, c + 1)[0]);
    let p = '[';
    let open = seq!['['];
    let mid = seq![']', '('];
    let close = seq![')'];
    text::lemma_count_absent(mid, p);
    text::lemma_count_absent(close, p);
    assert(text::count(open, p) == 1) by {
        assert(open.drop_last() =~= Seq::<char>::empty());
        assert(text::count(Seq::<char>::empty(), p) == 0);
    }
    let x1 = s.take(a);
    let x2 = s.subrange(a + 1, b);
    let x3 = s.subrange(b + 2, c);
    let x4 = s.skip(c + 1);
    text::lemma_count_add(x1, open, p);
    text::lemma_count_add(x1 + open, x2, p);
    text::lemma_count_add(x1 + open + x2, mid, p);
    text::lemma_count_add(x1 + open + x2 + mid, x3, p);
    text::lemma_count_add(x1 + open + x2 + mid + x3, close, p);
    text::lemma_count_add(x1 + open + x2 + mid + x3 + close, x4, p);
    assert(x1 + open + x2 + mid + x3 + close + x4 =~= s);
}

/// Rewriting a link takes away a bracket.
pub proof fn lemma_link_shrinks(s: Seq<char>, style: LinkStyle)
    ensures
        first_link_rewritten(s, style) matches Some(t) ==> text::count(t, '[') + 1 == text::count(
            s,
            '[',
        ),
{
    text::lemma_find_from(s, "["@, 0);
    if let Some(a) = text::find_from(s, "["@, 0) {
        text::lemma_find_from(s, "]("@, a);
        if let Some(b) = text::find_from(s, "]("@, a) {
            text::lemma_find_from(s, ")"@, b + 2);
            if let Some(c) = text::find_from(s, ")"@, b + 2) {
                lemma_link_parts(s, a, b, c);
                let label = s.subrange(a + 1, b);
                let url = s.subrange(b + 2, c);
                lemma_link_count(style, label, url);
                text::lemma_count_add(s.take(a), link(style, label, url), '[');
                text::lemma_count_add(s.take(a) + link(style, label, url), s.skip(c + 1), '[');
            }
        }
    }
}

fn write_link(style: LinkStyle, label: &[char], url: &[char]) -> (r: Vec<char>)
    ensures
        r@ == link(style, label@, url@),
{
    let mut out: Vec<char> = Vec::new();
    match style {
        LinkStyle::Html => {
            text::extend_str(&mut out, "<a href=\"");
            text::extend(&mut out, url);
            text::extend_str(&mut out, "\">");
            text::extend(&mut out, label);
            text::extend_str(&mut out, "</a>");
            assert(out@ =~= link(style, label@, url@));
        },
        LinkStyle::Slack => {
            text::extend_str(&mut out, "<");
            text::extend(&mut out, url);
            text::extend_str(&mut out, "|");
            text::extend(&mut out, label);
            text::extend_str(&mut out, ">");
            assert(out@ =~= link(style, label@, url@));
        },
        LinkStyle::Plain => {
            text::extend(&mut out, label);
            text::extend_str(&mut out, " (");
            text::extend(&mut out, url);
            text::extend_str(&mut out, ")");
            assert(out@ =~= link(style, label@, url@));
        },
    }
    out
}

/// Rewrites the first link until the first `[` begins no link.
fn rewrite_links(s: Vec<char>, style: LinkStyle) -> (r: Vec<char>)
    ensures
        r@ == links_rewritten(s@, style),
{
    let mut cur: Vec<char> = s;
    let open = text::chars_of("[");
    let mid = text::chars_of("](");
    let close = text::chars_of(")");
    proof {
        reveal_strlit("[");
        reveal_strlit("](");
        reveal_strlit(")");
    }
    loop
        invariant
            open@ == "["@,
            mid@ == "]("@,
            close@ == ")"@,
            open@.len() == 1,
            mid@.len() == 2,
            close@.len() == 1,
            links_rewritten(cur@, style) == links_rewritten(s@, style),
        decreases text::count(cur@, '['),
    {
        let whole = cur.as_slice();
        let a: usize = match text::find(whole, open.as_slice(), 0) {
            Some(i) => i,
            None => {
                return cur;
            },
        };
        let b: usize = match text::find(whole, mid.as_slice(), a) {
            Some(i) => i,
            None => {
                return cur;
            },
        };
        let c: usize = match text::find(whole, close.as_slice(), b + 2) {
            Some(i) => i,
            None => {
                return cur;
            },
        };
        proof {
            lemma_link_parts(cur@, a as int, b as int, c as int);
            lemma_link_shrinks(cur@, style);
        }
        let mut next: Vec<char> = Vec::new();
        text::extend(&mut next, slice_subrange(whole, 0, a));
        let rewritten = write_link(
            style,
            slice_subrange(whole, a + 1, b),
            slice_subrange(whole, b + 2, c),
        );
        text::extend(&mut next, rewritten.as_slice());
        text::extend(&mut next, slice_subrange(whole, c + 1, cur.len()));
        assert(next@ =~= first_link_rewritten(cur@, style)->0);
        cur = next;
    }
}

// ---------------------------------------------------------------- single asterisks

/// The character at `i` is an asterisk with no asterisk beside it.
pub open spec fn lone_asterisk(s: Seq<char>, i: int) -> bool {
    &&& s[i] == '*'
    &&& (i == 0 || s[i - 1] != '*')
    &&& (i + 1 >= s.len() || s[i + 1] != '*')
}

/// The first `n` characters of `s` without the lone asterisks.
pub open spec fn asterisks_dropped(s: Seq<char>, n: nat) -> Seq<char>
    decreases n,
{
    if n == 0 {
        Seq::empty()
    } else {
        let before = asterisks_dropped(s, (n - 1) as nat);
        if lone_asterisk(s, n - 1) {
            before
        } else {
            before.push(s[n - 1])
        }
    }
}

/// How many lone asterisks stand among the first `n` characters.
pub open spec fn lone_asterisks(s: Seq<char>, n: nat) -> nat
    decreases n,
{
    if n == 0 {
        0
    } else {
        lone_asterisks(s, (n - 1) as nat) + if lone_asterisk(s, n - 1) {
            1nat
        } else {
            0nat
        }
    }
}

/// The first `n` characters of `s` with the lone asterisks turned into `<i>` and `</i>` by turns.
pub open spec fn italics(s: Seq<char>, n: nat) -> Seq<char>
    decreases n,
{
    if n == 0 {
        Seq::empty()
    } else {
        let before = italics(s, (n - 1) as nat);
        if lone_asterisk(s, n - 1) {
            if lone_asterisks(s, (n - 1) as nat) % 2 == 1 {
                before + "</i>"@
            } else {
                before + "<i>"@
            }
        } else {
            before.push(s[n - 1])
        }
    }
}

/// Whether the character at `i` is an asterisk with no asterisk beside it.
fn is_lone_asterisk(s: &[char], i: usize) -> (r: bool)
    requires
        i < s@.len(),
    ensures
        r == lone_asterisk(s@, i as int),
{
    s[i] == '*' && (i == 0 || s[i - 1] != '*') && (i + 1 >= s.len() || s[i + 1] != '*')
}

fn drop_asterisks(s: &[char]) -> (r: Vec<char>)
    ensures
        r@ == asterisks_dropped(s@, s@.len()),
{
    let mut out: Vec<char> = Vec::new();
    let mut i: usize = 0;
    while i < s.len()
        invariant
            i <= s@.len(),
            out@ == asterisks_dropped(s@, i as nat),
        decreases s@.len() - i,
    {
        if !is_lone_asterisk(s, i) {
            out.push(s[i]);
        }
        i += 1;
    }
    out
}

fn mark_italics(s: &[char]) -> (r: Vec<char>)
    ensures
        r@ == italics(s@, s@.len()),
{
    let mut out: Vec<char> = Vec::new();
    let mut i: usize = 0;
    let mut in_italic: bool = false;
    while i < s.len()
        invariant
            i <= s@.len(),
            out@ == italics(s@, i as nat),
            in_italic == (lone_asterisks(s@, i as nat) % 2 == 1),
        decreases s@.len() - i,
    {
        if is_lone_asterisk(s, i) {
            if in_italic {
                text::extend_str(&mut out, "</i>");
            } else {
                text::extend_str(&mut out, "<i>");
            }
            in_italic = !in_italic;
        } else {
            out.push(s[i]);
        }
        i += 1;
    }
    out
}

// ---------------------------------------------------------------- Telegram, Slack, plain text

/// The text with the characters that HTML gives a meaning to written as entities.
pub open spec fn html_escaped(s: Seq<char>) -> Seq<char> {
    text::replaced(
        text::replaced(text::replaced(s, "&"@, "&amp;"@), "<"@, "&lt;"@),
        ">"@,
        "&gt;"@,
    )
}

/// Markdown in Telegram's HTML: escaped, then bold, italics, inline code and links rewritten in
/// turn.
pub open spec fn telegram_html(s: Seq<char>) -> Seq<char> {
    let bold = pairs_rewritten(html_escaped(s), "**"@, "<b>"@, "</b>"@);
    let italic = italics(bold, bold.len());
    let code = pairs_rewritten(italic, "`"@, "<code>"@, "</code>"@);
    links_rewritten(code, LinkStyle::Html)
}

/// Markdown in Slack's mrkdwn: bold rewritten, then links.
pub open spec fn slack_mrkdwn(s: Seq<char>) -> Seq<char> {
    links_rewritten(pairs_rewritten(s, "**"@, "*"@, "*"@), LinkStyle::Slack)
}

/// Markdown as plain text: the underscores of emphasis dropped, then bold markers, lone asterisks and
/// backticks, and links rewritten.
pub open spec fn plain_text(s: Seq<char>) -> Seq<char> {
    let unbold = text::replaced(emphasis::emphasis_dropped(s), "**"@, ""@);
    let unitalic = asterisks_dropped(unbold, unbold.len());
    links_rewritten(text::replaced(unitalic, "`"@, ""@), LinkStyle::Plain)
}

fn replace_str(s: &[char], pat: &str, with: &str) -> (r: Vec<char>)
    requires
        pat@.len() > 0,
    ensures
        r@ == text::replaced(s@, pat@, with@),
{
    let p = text::chars_of(pat);
    let w = text::chars_of(with);
    text::replace(s, p.as_slice(), w.as_slice())
}

fn rewrite_str_pairs(s: Vec<char>, mark: &str, open: &str, close: &str) -> (r: Vec<char>)
    requires
        pair_shrinks(mark@, open@, close@),
    ensures
        r@ == pairs_rewritten(s@, mark@, open@, close@),
{
    let m = text::chars_of(mark);
    let o = text::chars_of(open);
    let c = text::chars_of(close);
    rewrite_pairs(s, m.as_slice(), o.as_slice(), c.as_slice())
}

/// The replacements for bold markers hold fewer asterisks.
pub proof fn lemma_bold_shrinks()
    ensures
        pair_shrinks("**"@, "<b>"@, "</b>"@),
        pair_shrinks("**"@, "*"@, "*"@),
{
    reveal_strlit("**");
    reveal_strlit("*");
    reveal_strlit("<b>");
    reveal_strlit("</b>");
    text::lemma_count_absent("<b>"@, '*');
    text::lemma_count_absent("</b>"@, '*');
    reveal_with_fuel(text::count, 3);
    assert("**"@.drop_last() =~= seq!['*']);
    assert(seq!['*'].drop_last() =~= Seq::<char>::empty());
    assert("*"@.drop_last() =~= Seq::<char>::empty());
}

/// The replacements for backticks hold fewer of them.
pub proof fn lemma_code_shrinks()
    ensures
        pair_shrinks("`"@, "<code>"@, "</code>"@),
{
    reveal_strlit("`");
    reveal_strlit("<code>");
    reveal_strlit("</code>");
    text::lemma_count_absent("<code>"@, '`');
    text::lemma_count_absent("</code>"@, '`');
    reveal_with_fuel(text::count, 2);
    assert("`"@.drop_last() =~= Seq::<char>::empty());
}

/// Convert Markdown to the Telegram HTML subset.
///
/// Supported tags: `<b>`, `<i>`, `<code>`, `<pre>`, `<a href="">`.
pub fn markdown_to_telegram_html(text: &str) -> (r: String)
    ensures
        r@ == telegram_html(text@),
{
    proof {
        reveal_strlit("&");
        reveal_strlit("<");
        reveal_strlit(">");
        lemma_bold_shrinks();
        lemma_code_shrinks();
    }
    let chars = text::chars_of(text);
    let e1 = replace_str(chars.as_slice(), "&", "&amp;");
    let e2 = replace_str(e1.as_slice(), "<", "&lt;");
    let escaped = replace_str(e2.as_slice(), ">", "&gt;");
    let bold = rewrite_str_pairs(escaped, "**", "<b>", "</b>");
    let italic = mark_italics(bold.as_slice());
    let code = rewrite_str_pairs(italic, "`", "<code>", "</code>");
    let linked = rewrite_links(code, LinkStyle::Html);
    text::string_of(linked.as_slice())
}

/// Convert Markdown to Slack mrkdwn format.
pub fn markdown_to_slack_mrkdwn(text: &str) -> (r: String)
    ensures
        r@ == slack_mrkdwn(text@),
{
    proof {
        lemma_bold_shrinks();
    }
    let chars = text::chars_of(text);
    let bold = rewrite_str_pairs(chars, "**", "*", "*");
    let linked = rewrite_links(bold, LinkStyle::Slack);
    text::string_of(linked.as_slice())
}

/// Strip Markdown formatting, producing plain text.
///
/// The markers `**`, `*`, `` ` `` and the underscores around `_italic_` and `__bold__` are dropped;
/// underscores inside words, code and addresses stay. A link becomes its text with the address in
/// parentheses. Headings, quotes, lists and strikethrough are left as they are.
pub fn markdown_to_plain(text: &str) -> (r: String)
    ensures
        r@ == plain_text(text@),
{
    proof {
        reveal_strlit("**");
        reveal_strlit("`");
    }
    let plain = emphasis::drop_emphasis(text::chars_of(text));
    let unbold = replace_str(plain.as_slice(), "**", "");
    let unitalic = drop_asterisks(unbold.as_slice());
    let bare = replace_str(unitalic.as_slice(), "`", "");
    let linked = rewrite_links(bare, LinkStyle::Plain);
    text::string_of(linked.as_slice())
}

/// The text in a channel's markup.
pub open spec fn formatted(s: Seq<char>, format: OutputFormat) -> Seq<char> {
    match format {
        OutputFormat::Markdown => s,
        OutputFormat::DiscordMarkdown => discord_markdown::discord_markdown(s),
        OutputFormat::TelegramHtml => telegram_html(s),
        OutputFormat::SlackMrkdwn => slack_mrkdwn(s),
        OutputFormat::PlainText => plain_text(s),
    }
}

/// Format a message for a specific channel output format.
pub fn format_for_channel(text: &str, format: OutputFormat) -> (r: String)
    ensures
        r@ == formatted(text@, format),
{
    match format {
        OutputFormat::Markdown => text.to_string(),
        OutputFormat::DiscordMarkdown => discord_markdown::markdown_to_discord(text),
        OutputFormat::TelegramHtml => markdown_to_telegram_html(text),
        OutputFormat::SlackMrkdwn => markdown_to_slack_mrkdwn(text),
        OutputFormat::PlainText => markdown_to_plain(text),
    }
}

} // verus!
