use openfang_channels::discord_markdown::markdown_to_discord;
use openfang_channels::formatter::{
    format_for_channel, markdown_to_plain, markdown_to_slack_mrkdwn, markdown_to_telegram_html,
    OutputFormat,
};

#[test]
fn test_format_markdown_passthrough() {
    let text = "**bold** and *italic*";
    assert_eq!(format_for_channel(text, OutputFormat::Markdown), text);
}

#[test]
fn test_telegram_html_bold() {
    let result = markdown_to_telegram_html("Hello **world**!");
    assert_eq!(result, "Hello <b>world</b>!");
}

#[test]
fn test_telegram_html_italic() {
    let result = markdown_to_telegram_html("Hello *world*!");
    assert_eq!(result, "Hello <i>world</i>!");
}

#[test]
fn test_telegram_html_code() {
    let result = markdown_to_telegram_html("Use `println!`");
    assert_eq!(result, "Use <code>println!</code>");
}

#[test]
fn test_telegram_html_link() {
    let result = markdown_to_telegram_html("[click here](https://example.com)");
    assert_eq!(result, "<a href=\"https://example.com\">click here</a>");
}

#[test]
fn test_slack_mrkdwn_bold() {
    let result = markdown_to_slack_mrkdwn("Hello **world**!");
    assert_eq!(result, "Hello *world*!");
}

#[test]
fn test_slack_mrkdwn_link() {
    let result = markdown_to_slack_mrkdwn("[click](https://example.com)");
    assert_eq!(result, "<https://example.com|click>");
}

#[test]
fn test_plain_text_strips_formatting() {
    let result = markdown_to_plain("**bold** and `code` and *italic*");
    assert_eq!(result, "bold and code and italic");
}

#[test]
fn test_plain_text_converts_links() {
    let result = markdown_to_plain("[click](https://example.com)");
    assert_eq!(result, "click (https://example.com)");
}

#[test]
fn every_format_has_its_converter() {
    let text = "**b** *i* `c` [t](u)";
    assert_eq!(
        format_for_channel(text, OutputFormat::TelegramHtml),
        "<b>b</b> <i>i</i> <code>c</code> <a href=\"u\">t</a>"
    );
    assert_eq!(format_for_channel(text, OutputFormat::SlackMrkdwn), "*b* *i* `c` <u|t>");
    assert_eq!(format_for_channel(text, OutputFormat::PlainText), "b i c t (u)");
    assert_eq!(format_for_channel(text, OutputFormat::DiscordMarkdown), text);
}

#[test]
fn telegram_escapes_html() {
    assert_eq!(markdown_to_telegram_html("a < b & c > d"), "a &lt; b &amp; c &gt; d");
    assert_eq!(markdown_to_telegram_html("<b>x</b>"), "&lt;b&gt;x&lt;/b&gt;");
    assert_eq!(markdown_to_telegram_html("&lt;"), "&amp;lt;");
}

#[test]
fn telegram_unpaired_markers_stay() {
    assert_eq!(markdown_to_telegram_html("**open"), "**open");
    assert_eq!(markdown_to_telegram_html("a ` b"), "a ` b");
    assert_eq!(markdown_to_telegram_html("*a"), "<i>a");
    assert_eq!(markdown_to_telegram_html("****"), "<b></b>");
    assert_eq!(markdown_to_telegram_html("[a] (b)"), "[a] (b)");
    assert_eq!(markdown_to_telegram_html("[a](b"), "[a](b");
}

#[test]
fn slack_rewrites_until_no_pair_is_left() {
    assert_eq!(markdown_to_slack_mrkdwn("****"), "**");
    assert_eq!(markdown_to_slack_mrkdwn("***a**"), "**a*");
    assert_eq!(markdown_to_slack_mrkdwn("**a** **b**"), "*a* *b*");
    assert_eq!(markdown_to_slack_mrkdwn("[a](b) and [c](d)"), "<b|a> and <d|c>");
    assert_eq!(markdown_to_slack_mrkdwn("[[a](b)"), "<b|[a>");
}

#[test]
fn plain_text_edge_cases() {
    assert_eq!(markdown_to_plain("***"), "");
    assert_eq!(markdown_to_plain("2 * 3"), "2  3");
    assert_eq!(markdown_to_plain("```code```"), "code");
    assert_eq!(markdown_to_plain("no markup: é 😊"), "no markup: é 😊");
}

#[test]
fn plain_text_drops_underscore_emphasis() {
    assert_eq!(markdown_to_plain("__bold__ and _italic_"), "bold and italic");
    assert_eq!(markdown_to_plain("___both___, (_a_) _b c_!"), "both, (a) b c!");
    assert_eq!(markdown_to_plain("_a __b__ c_ _d _e_ f_"), "a b c d e f");
    assert_eq!(markdown_to_plain("*_x_* [_a_](u)"), "x a (u)");
    assert_eq!(markdown_to_plain("_été_"), "été");
}

#[test]
fn plain_text_keeps_other_underscores() {
    for text in [
        "snake_case_name and __init",
        "a_b_ and _c d_e",
        "été_été _ x __ y",
        "____",
        "_a__ b",
        "_ a _",
        "# title\n> quote\n- item ~~gone~~",
        "",
        "_",
    ] {
        assert_eq!(markdown_to_plain(text), text);
    }
    assert_eq!(markdown_to_plain("[a]_(u)_"), "[a]_(u)_");
    assert_eq!(markdown_to_plain("[a](b_c_d)"), "a (b_c_d)");
}

#[test]
fn plain_text_keeps_code() {
    assert_eq!(markdown_to_plain("`__init__`"), "__init__");
    assert_eq!(markdown_to_plain("``"), "");
    assert_eq!(markdown_to_plain("``_a_ ` _b_`` and _c_"), "_a_  _b_ and c");
    assert_eq!(markdown_to_plain("```py\n_x_ = __y__\n```\n_z_"), "py\n_x_ = __y__\n\nz");
    assert_eq!(markdown_to_plain("```\n_open_"), "\n_open_");
    assert_eq!(markdown_to_plain("a ` _b_"), "a  b");
    assert_eq!(markdown_to_plain("_call `__f__` now_"), "call __f__ now");
}

#[test]
fn plain_text_keeps_addresses() {
    assert_eq!(markdown_to_plain("[d](/_s_)"), "d (/_s_)");
    assert_eq!(markdown_to_plain("[_d_](/_s_) and _e_"), "d (/_s_) and e");
    assert_eq!(markdown_to_plain("_see [d](/_s_) now_"), "see d (/_s_) now");
    assert_eq!(markdown_to_plain("[_a](u) b_"), "_a (u) b_");
    assert_eq!(markdown_to_plain("_a [b_](u) c_"), "a b_ (u) c");
    let text = "https://example.com/_s_/__t__ and <a href=\"/_u_\">";
    assert_eq!(markdown_to_plain(text), text);
    assert_eq!(markdown_to_plain("_https://example.com/a_."), "https://example.com/a.");
}

#[test]
fn plain_text_keeps_what_is_no_emphasis() {
    for text in [
        "\\_x\\_",
        "\\_x_",
        "_a\n\nb_",
        "_a\n \t\nb_",
        "- _a\n- b_",
        "1. _a\n12) b_",
        "_a\n# b_",
        "_a\n> b_",
        "_a\n---\nb_",
    ] {
        assert_eq!(markdown_to_plain(text), text);
    }
    assert_eq!(markdown_to_plain("\\\\_x_"), "\\\\x");
    assert_eq!(markdown_to_plain("_a\nb_\n\n_c_"), "a\nb\n\nc");
    assert_eq!(markdown_to_plain("_a\n\nb_ _c_"), "_a\n\nb_ c");
    assert_eq!(markdown_to_plain("\u{201c}_a_\u{201d}"), "\u{201c}a\u{201d}");
}

#[test]
fn plain_text_without_links_drops_markers_only() {
    for text in ["a * b", "***x*** `y` z_w", "`_a*b_`", "snake_case *and* `code`"] {
        let bare: String = text.chars().filter(|c| *c != '*' && *c != '`').collect();
        assert_eq!(markdown_to_plain(text), bare);
    }
}

#[test]
fn discord_text_is_rendered_once() {
    for text in [
        "| Name | Age |\n|------|-----|\n| Al | 7 |\nafter",
        "a\n\n| x | y |\n|---|---|\n\nb | c\n| - |\n",
        "| | |\n|-|-|\n|a||b|",
        "```\n| x |\n|---|\n```\n| x |\n|---|\n| y |",
        "\n",
        "",
        "plain\ntext\n",
    ] {
        let once = markdown_to_discord(text);
        assert_eq!(markdown_to_discord(&once), once);
    }
}

#[test]
fn discord_renders_tables() {
    let text = "before\n| Name | Age |\n|------|-----|\n| Al | 7 |\n| Beatrice | 41 |\nafter";
    assert_eq!(
        markdown_to_discord(text),
        "before\n```\nName     | Age\n---------+----\nAl       | 7  \nBeatrice | 41 \n```\nafter"
    );
}

#[test]
fn discord_table_with_missing_and_extra_cells() {
    let text = "a|b\n-|-\n1|\nx|y|z\n||\n";
    assert_eq!(markdown_to_discord(text), "```\na | b\n--+--\n1 |  \nx | y\n```\n||");
}

#[test]
fn discord_column_width_counts_bytes() {
    let text = "|é|\n|-|\n|x|";
    assert_eq!(markdown_to_discord(text), "```\né \n--\nx \n```");
}

#[test]
fn discord_keeps_code_blocks() {
    let text = "```\n|a|b|\n|-|-|\n<br>\n```\n<br>x<p>y</p>";
    assert_eq!(markdown_to_discord(text), "```\n|a|b|\n|-|-|\n<br>\n```\nxy");
    let text = "  ```rust\n<hr>\n  ```";
    assert_eq!(markdown_to_discord(text), text);
}

#[test]
fn discord_drops_tags() {
    assert_eq!(
        markdown_to_discord("a<br>b<br/>c<br />d<hr>e<hr/>f<hr />g<p>h</p>i<div>j</div>k<span>l</span>m"),
        "abcdefghijklm"
    );
    assert_eq!(markdown_to_discord("<b>kept</b>"), "<b>kept</b>");
    assert_eq!(markdown_to_discord("<b<br>r>"), "<br>");
}

#[test]
fn discord_joins_lines_with_line_feeds() {
    assert_eq!(markdown_to_discord("a\r\nb\n"), "a\nb");
    assert_eq!(markdown_to_discord(""), "");
    assert_eq!(markdown_to_discord("a\r"), "a\r");
    assert_eq!(markdown_to_discord("\n\nx"), "\n\nx");
}

#[test]
fn unmarked_text_is_kept() {
    let text = "Plain (text), with <angles> & more) ](";
    assert_eq!(format_for_channel(text, OutputFormat::SlackMrkdwn), text);
    assert_eq!(format_for_channel(text, OutputFormat::PlainText), text);
    assert_eq!(
        format_for_channel(text, OutputFormat::TelegramHtml),
        "Plain (text), with &lt;angles&gt; &amp; more) ]("
    );
}

#[test]
fn plain_text_has_no_markers() {
    for text in ["*", "**", "***", "*****", "a*b**c***d****", "`*`**`", "[*a*](`b`)", "**[**x](y)*", "*_*a*_*"] {
        let out = markdown_to_plain(text);
        assert!(!out.contains('*') && !out.contains('`'), "{text} gave {out}");
    }
}

#[test]
fn telegram_has_only_its_tags() {
    let tags = ["<b>", "</b>", "<i>", "</i>", "<code>", "</code>", "<a href=\"", "</a>"];
    for text in [
        "<script>**b** *i* `c` [l](u)",
        "[**a](b**) *c [`d](e`) f*",
        "**[x](y** z)",
        "*[a*](*b)",
        "<<>>&&[<](>)",
    ] {
        let out = markdown_to_telegram_html(text);
        for (i, _) in out.match_indices('<') {
            assert!(tags.iter().any(|t| out[i..].starts_with(t)), "{text} gave {out}");
        }
    }
}

#[test]
fn rewriting_again_changes_nothing() {
    for text in ["[a](b)", "[[a](b)](c)", "x [a] [b](c) [d", "[a](b)[c](d)"] {
        let once = markdown_to_slack_mrkdwn(text);
        assert_eq!(markdown_to_slack_mrkdwn(&once), once, "{text}");
    }
}
