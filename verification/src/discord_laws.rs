//! Discord's Markdown is reached in one step: rendering it again changes nothing.

use crate::discord_markdown;
use crate::formatter_laws;
use crate::text;
use vstd::prelude::*;

verus! {

/// None of the parts holds the character.
spec fn free(parts: Seq<Seq<char>>, d: char) -> bool {
    forall|k: int| 0 <= k < parts.len() ==> !(#[trigger] parts[k]).contains(d)
}

// ---------------------------------------------------------------- what the parts of a line hold

proof fn lemma_skip_free(s: Seq<char>, i: int, d: char)
    requires
        0 <= i <= s.len(),
        !s.contains(d),
    ensures
        !s.skip(i).contains(d),
        !s.take(i).contains(d),
{
    formatter_laws::lemma_absent_in_part(s, i, s.len() as int, d);
    formatter_laws::lemma_absent_in_part(s, 0, i, d);
    assert(s.skip(i) =~= s.subrange(i, s.len() as int));
    assert(s.take(i) =~= s.subrange(0, i));
}

proof fn lemma_split_free(s: Seq<char>, c: char, d: char)
    requires
        !s.contains(d),
    ensures
        free(text::split_on(s, c), d),
    decreases s.len(),
{
    text::lemma_find_from(s, seq![c], 0);
    if let Some(i) = text::find_from(s, seq![c], 0) {
        lemma_skip_free(s, i, d);
        lemma_skip_free(s, i + 1, d);
        lemma_split_free(s.skip(i + 1), c, d);
    }
}

proof fn lemma_trimmed_start_free(s: Seq<char>, d: char)
    requires
        !s.contains(d),
    ensures
        !text::trimmed_start(s).contains(d),
    decreases s.len(),
{
    if s.len() > 0 && text::is_white(s[0]) {
        lemma_skip_free(s, 1, d);
        assert(s.drop_first() =~= s.skip(1));
        lemma_trimmed_start_free(s.drop_first(), d);
    }
}

proof fn lemma_trimmed_end_free(s: Seq<char>, d: char)
    requires
        !s.contains(d),
    ensures
        !text::trimmed_end(s).contains(d),
    decreases s.len(),
{
    if s.len() > 0 && text::is_white(s.last()) {
        lemma_skip_free(s, s.len() - 1, d);
        assert(s.drop_last() =~= s.take(s.len() - 1));
        lemma_trimmed_end_free(s.drop_last(), d);
    }
}

proof fn lemma_nonblank_free(pieces: Seq<Seq<char>>, d: char)
    requires
        free(pieces, d),
    ensures
        free(discord_markdown::nonblank(pieces), d),
    decreases pieces.len(),
{
    if pieces.len() > 0 {
        assert forall|k: int| 0 <= k < pieces.drop_last().len() implies !(
        #[trigger] pieces.drop_last()[k]).contains(d) by {
            assert(!pieces[k].contains(d));
        }
        lemma_nonblank_free(pieces.drop_last(), d);
        assert(!pieces[pieces.len() - 1].contains(d));
        lemma_trimmed_start_free(pieces.last(), d);
        lemma_trimmed_end_free(text::trimmed_start(pieces.last()), d);
    }
}

proof fn lemma_cells_free(line: Seq<char>, d: char)
    requires
        !line.contains(d),
    ensures
        free(discord_markdown::cells_of(line), d),
{
    lemma_split_free(line, '|', d);
    lemma_nonblank_free(text::split_on(line, '|'), d);
}

// ---------------------------------------------------------------- what a rendered table holds

proof fn lemma_joined_free(parts: Seq<Seq<char>>, sep: Seq<char>, d: char)
    requires
        free(parts, d),
        !sep.contains(d),
    ensures
        !text::joined(parts, sep).contains(d),
    decreases parts.len(),
{
    if parts.len() == 1 {
        assert(!parts[0].contains(d));
    } else if parts.len() > 1 {
        assert forall|k: int| 0 <= k < parts.drop_last().len() implies !(
        #[trigger] parts.drop_last()[k]).contains(d) by {
            assert(!parts[k].contains(d));
        }
        lemma_joined_free(parts.drop_last(), sep, d);
        assert(!parts[parts.len() - 1].contains(d));
        let front = text::joined(parts.drop_last(), sep);
        formatter_laws::lemma_absent_in_sum(front, sep, d);
        formatter_laws::lemma_absent_in_sum(front + sep, parts.last(), d);
    }
}

/// The character is none of those that a table is drawn with.
spec fn undrawn(d: char) -> bool {
    d != ' ' && d != '|' && d != '-' && d != '+'
}

proof fn lemma_padded_free(cell: Seq<char>, w: nat, d: char)
    requires
        !cell.contains(d),
        undrawn(d),
    ensures
        !discord_markdown::padded(cell, w).contains(d),
{
    if cell.len() < w {
        formatter_laws::lemma_absent_in_sum(
            cell,
            discord_markdown::repeated(' ', (w - cell.len()) as nat),
            d,
        );
    }
}

proof fn lemma_table_line_free(
    cells: Seq<Seq<char>>,
    header: Seq<Seq<char>>,
    rows: Seq<Seq<Seq<char>>>,
    d: char,
)
    requires
        free(cells, d),
        undrawn(d),
    ensures
        !discord_markdown::table_line(cells, header, rows).contains(d),
{
    reveal_strlit(" | ");
    let parts = Seq::new(
        header.len(),
        |j: int|
            discord_markdown::padded(
                if j < cells.len() {
                    cells[j]
                } else {
                    Seq::empty()
                },
                discord_markdown::column_width(header, rows, j),
            ),
    );
    assert forall|k: int| 0 <= k < parts.len() implies !(#[trigger] parts[k]).contains(d) by {
        let cell = if k < cells.len() {
            cells[k]
        } else {
            Seq::empty()
        };
        assert(!cell.contains(d));
        lemma_padded_free(cell, discord_markdown::column_width(header, rows, k), d);
    }
    lemma_joined_free(parts, " | "@, d);
}

proof fn lemma_rule_line_free(header: Seq<Seq<char>>, rows: Seq<Seq<Seq<char>>>, d: char)
    requires
        undrawn(d),
    ensures
        !discord_markdown::rule_line(header, rows).contains(d),
{
    reveal_strlit("-+-");
    let parts = Seq::new(
        header.len(),
        |j: int|
            discord_markdown::repeated('-', discord_markdown::column_width(header, rows, j)),
    );
    assert(free(parts, d));
    lemma_joined_free(parts, "-+-"@, d);
}

/// No line that a table could be made of holds the character.
pub open spec fn tables_free(lines: Seq<Seq<char>>, d: char) -> bool {
    forall|k: int|
        0 <= k < lines.len() && (#[trigger] lines[k]).contains('|') ==> !lines[k].contains(d)
}

proof fn lemma_rows(lines: Seq<Seq<char>>, i: int)
    requires
        0 <= i <= lines.len(),
    ensures
        forall|k: int|
            i <= k < discord_markdown::rows_end(lines, i) ==> (#[trigger] lines[k]).contains('|'),
    decreases lines.len() - i,
{
    if i < lines.len() && discord_markdown::is_row(lines[i]) {
        lemma_rows(lines, i + 1);
    }
}

/// Between its fences a rendered table holds no character that its lines do not hold, but for those
/// that it is drawn with.
proof fn lemma_table_free(lines: Seq<Seq<char>>, i: int, d: char)
    requires
        0 <= i,
        discord_markdown::table_at(lines, i),
        tables_free(lines, d),
        undrawn(d),
    ensures
        ({
            let block = discord_markdown::table_from(lines, i);
            forall|k: int| 0 < k < block.len() - 1 ==> !(#[trigger] block[k]).contains(d)
        }),
{
    let end = discord_markdown::rows_end(lines, i + 2);
    discord_markdown::lemma_rows_end(lines, i + 2);
    lemma_rows(lines, i + 2);
    let header = discord_markdown::cells_of(lines[i]);
    let rows = discord_markdown::rows_between(lines, i + 2, end);
    let block = discord_markdown::table_from(lines, i);
    assert(!lines[i].contains(d));
    lemma_cells_free(lines[i], d);
    lemma_table_line_free(header, header, rows, d);
    lemma_rule_line_free(header, rows, d);
    assert forall|k: int| 0 < k < block.len() - 1 implies !(#[trigger] block[k]).contains(d) by {
        if k >= 3 {
            assert(lines[i + 2 + (k - 3)].contains('|'));
            lemma_cells_free(lines[i + 2 + (k - 3)], d);
            lemma_table_line_free(rows[k - 3], header, rows, d);
        }
    }
}

// ---------------------------------------------------------------- lines

/// Without carriage returns a line of a text holds no line ending, and nothing that the text does
/// not hold.
proof fn lemma_lines_free(s: Seq<char>, d: char)
    requires
        !s.contains(d) || d == '\n',
        !s.contains('\r'),
    ensures
        free(text::lines_of(s), d),
    decreases s.len(),
{
    if s.len() > 0 {
        text::lemma_find_from(s, seq!['\n'], 0);
        match text::find_from(s, seq!['\n'], 0) {
            Some(i) => {
                assert(!s.take(i).contains(d)) by {
                    if s.take(i).contains(d) {
                        let k = choose|k: int| 0 <= k < i && s.take(i)[k] == d;
                        assert(s[k] == d);
                        formatter_laws::lemma_char_stands(s, '\n', k);
                    }
                }
                lemma_skip_free(s, i, '\r');
                lemma_skip_free(s, i + 1, '\r');
                if d != '\n' {
                    lemma_skip_free(s, i + 1, d);
                }
                lemma_lines_free(s.skip(i + 1), d);
                assert(text::chomp(s.take(i)) == s.take(i));
            },
            None => {
                if s.contains(d) {
                    let k = choose|k: int| 0 <= k < s.len() && s[k] == d;
                    formatter_laws::lemma_char_stands(s, '\n', k);
                }
            },
        }
    }
}

/// The text ends with an empty line.
pub open spec fn ends_blank(s: Seq<char>) -> bool {
    s.len() >= 2 && s[s.len() - 1] == '\n' && s[s.len() - 2] == '\n'
}

proof fn lemma_last_line(s: Seq<char>)
    requires
        !s.contains('\r'),
        s.len() > 0,
        !ends_blank(s),
        s != seq!['\n'],
    ensures
        text::lines_of(s).len() > 0,
        text::lines_of(s).last().len() > 0,
    decreases s.len(),
{
    text::lemma_find_from(s, seq!['\n'], 0);
    if let Some(i) = text::find_from(s, seq!['\n'], 0) {
        formatter_laws::lemma_char_stands(s, '\n', i);
        lemma_skip_free(s, i, '\r');
        lemma_skip_free(s, i + 1, '\r');
        let rest = s.skip(i + 1);
        assert(text::chomp(s.take(i)) == s.take(i));
        if rest.len() == 0 {
            assert(text::lines_of(rest) =~= Seq::<Seq<char>>::empty());
            assert(text::lines_of(s) =~= seq![s.take(i)]);
            if i == 0 {
                assert(s =~= seq!['\n']);
            }
        } else {
            if rest == seq!['\n'] {
                assert(rest[0] == '\n');
                assert(s[i + 1] == rest[0]);
                assert(ends_blank(s));
            }
            if ends_blank(rest) {
                assert(ends_blank(s));
            }
            lemma_last_line(rest);
        }
    }
}

proof fn lemma_joined_front(parts: Seq<Seq<char>>, sep: Seq<char>)
    requires
        parts.len() >= 2,
    ensures
        text::joined(parts, sep) == parts[0] + sep + text::joined(parts.drop_first(), sep),
    decreases parts.len(),
{
    let front = parts.drop_last();
    let back = parts.drop_first();
    if parts.len() == 2 {
        reveal_with_fuel(text::joined, 2);
        assert(front =~= seq![parts[0]]);
        assert(back =~= seq![parts[1]]);
    } else {
        lemma_joined_front(front, sep);
        assert(front.drop_first() =~= back.drop_last());
        assert(text::joined(parts, sep) =~= parts[0] + sep + text::joined(back, sep));
    }
}

/// Joined lines are the same lines again, if the last is not empty.
proof fn lemma_lines_joined(parts: Seq<Seq<char>>)
    requires
        parts.len() > 0,
        parts.last().len() > 0,
        free(parts, '\n'),
        free(parts, '\r'),
    ensures
        text::lines_of(text::joined(parts, "\n"@)) == parts,
    decreases parts.len(),
{
    reveal_strlit("\n");
    assert("\n"@ =~= seq!['\n']);
    let s = text::joined(parts, "\n"@);
    assert(!parts[0].contains('\n') && !parts[0].contains('\r'));
    text::lemma_find_from(s, seq!['\n'], 0);
    if parts.len() == 1 {
        if let Some(i) = text::find_from(s, seq!['\n'], 0) {
            formatter_laws::lemma_char_stands(s, '\n', i);
            assert(parts[0][i] == '\n');
        }
        assert(text::lines_of(s) =~= parts);
    } else {
        lemma_joined_front(parts, "\n"@);
        let back = parts.drop_first();
        let rest = text::joined(back, "\n"@);
        let n = parts[0].len() as int;
        assert(s =~= parts[0] + seq!['\n'] + rest);
        assert(s[n] == '\n');
        formatter_laws::lemma_char_stands(s, '\n', n);
        let i = text::find_from(s, seq!['\n'], 0)->0;
        formatter_laws::lemma_char_stands(s, '\n', i);
        if i < n {
            assert(parts[0][i] == '\n');
        }
        assert(i == n);
        assert(s.take(n) =~= parts[0]);
        assert(s.skip(n + 1) =~= rest);
        if n > 0 {
            assert(parts[0].contains(parts[0].last()));
        }
        assert forall|k: int| 0 <= k < back.len() implies !(#[trigger] back[k]).contains('\n')
            && !back[k].contains('\r') by {
            assert(!parts[k + 1].contains('\n'));
            assert(!parts[k + 1].contains('\r'));
        }
        lemma_lines_joined(back);
        assert(text::lines_of(s) =~= parts);
    }
}

// ---------------------------------------------------------------- rendering twice

proof fn lemma_no_fence(line: Seq<char>)
    requires
        !line.contains('`'),
    ensures
        !discord_markdown::is_fence(line),
{
    reveal_strlit("```");
    lemma_trimmed_start_free(line, '`');
    let t = text::trimmed_start(line);
    if text::has_prefix(t, "```"@) {
        assert(t.take(3)[0] == '`');
        assert(t[0] == '`');
    }
}

proof fn lemma_fence()
    ensures
        discord_markdown::is_fence("```"@),
        !"```"@.contains('|'),
        !"```"@.contains('\n'),
        !"```"@.contains('\r'),
        "```"@.len() == 3,
{
    reveal_strlit("```");
    let f = "```"@;
    assert(f[0] == '`');
    assert(text::trimmed_start(f) == f);
    assert(f.take(3) =~= f);
}

/// A fence is no separator line.
proof fn lemma_fence_is_no_separator(line: Seq<char>)
    requires
        discord_markdown::is_fence(line),
    ensures
        !discord_markdown::is_separator(line),
{
    if discord_markdown::is_separator(line) {
        assert(!line.contains('`'));
        lemma_no_fence(line);
    }
}

/// Rendered lines hold no line ending, and the last is empty only if the last of the given lines is.
proof fn lemma_rendered(lines: Seq<Seq<char>>, i: int, in_code: bool)
    requires
        0 <= i <= lines.len(),
        free(lines, '<'),
        free(lines, '\n'),
        free(lines, '\r'),
    ensures
        free(discord_markdown::discord_lines(lines, i, in_code), '\n'),
        free(discord_markdown::discord_lines(lines, i, in_code), '\r'),
        i < lines.len() ==> ({
            let out = discord_markdown::discord_lines(lines, i, in_code);
            &&& out.len() > 0
            &&& out.last() == lines.last() || out.last() == "```"@
            &&& out[0] == lines[i] || out[0] == "```"@
        }),
    decreases lines.len() - i,
{
    let out = discord_markdown::discord_lines(lines, i, in_code);
    if i < lines.len() {
        assert(!lines[i].contains('<'));
        assert(!lines[i].contains('\n'));
        assert(!lines[i].contains('\r'));
        lemma_fence();
        if !discord_markdown::is_fence(lines[i]) && !in_code && discord_markdown::table_at(
            lines,
            i,
        ) {
            let end = discord_markdown::rows_end(lines, i + 2);
            let block = discord_markdown::table_from(lines, i);
            discord_markdown::lemma_rows_end(lines, i + 2);
            lemma_table_free(lines, i, '\n');
            lemma_table_free(lines, i, '\r');
            lemma_rendered(lines, end, in_code);
            let rest = discord_markdown::discord_lines(lines, end, in_code);
            assert(out == block + rest);
            assert(free(block, '\n') && free(block, '\r')) by {
                assert(block[0] == "```"@ && block[block.len() - 1] == "```"@);
            }
        } else {
            formatter_laws::lemma_tags_open();
            formatter_laws::lemma_no_tag_to_drop(lines[i], discord_markdown::dropped_tags());
            lemma_rendered(lines, i + 1, in_code);
            lemma_rendered(lines, i + 1, !in_code);
        }
    }
}

/// Rendered lines are rendered as they are, whatever stands before them.
proof fn lemma_rendered_again(
    before: Seq<Seq<char>>,
    lines: Seq<Seq<char>>,
    i: int,
    in_code: bool,
)
    requires
        0 <= i <= lines.len(),
        tables_free(lines, '`'),
        free(lines, '<'),
        free(lines, '\n'),
        free(lines, '\r'),
    ensures
        discord_markdown::discord_lines(
            before + discord_markdown::discord_lines(lines, i, in_code),
            before.len() as int,
            in_code,
        ) == discord_markdown::discord_lines(lines, i, in_code),
    decreases lines.len() - i,
{
    let out = discord_markdown::discord_lines(lines, i, in_code);
    let all = before + out;
    let p = before.len() as int;
    if i >= lines.len() {
        assert(out =~= Seq::<Seq<char>>::empty());
        assert(discord_markdown::discord_lines(all, p, in_code) =~= out);
    } else if discord_markdown::is_fence(lines[i]) || in_code {
        let after = if discord_markdown::is_fence(lines[i]) {
            !in_code
        } else {
            in_code
        };
        let rest = discord_markdown::discord_lines(lines, i + 1, after);
        assert(all =~= before.push(lines[i]) + rest);
        lemma_rendered_again(before.push(lines[i]), lines, i + 1, after);
        assert(all[p] == lines[i]);
        assert(discord_markdown::discord_lines(all, p, in_code) =~= out);
    } else if discord_markdown::table_at(lines, i) {
        let end = discord_markdown::rows_end(lines, i + 2);
        let block = discord_markdown::table_from(lines, i);
        let n = block.len() as int;
        discord_markdown::lemma_rows_end(lines, i + 2);
        lemma_fence();
        let rest = discord_markdown::discord_lines(lines, end, false);
        assert(out == block + rest);
        assert(all =~= (before + block) + rest);
        lemma_rendered_again(before + block, lines, end, false);
        lemma_table_free(lines, i, '`');
        assert(block[0] == "```"@ && block[n - 1] == "```"@);
        assert(all[p] == "```"@ && all[p + n - 1] == "```"@);
        assert forall|k: int| p + 1 <= k < p + n - 1 implies !discord_markdown::is_fence(
            #[trigger] all[k],
        ) by {
            assert(all[k] == block[k - p]);
            lemma_no_fence(block[k - p]);
        }
        formatter_laws::code_is_kept(all, p + 1, p + n - 1);
        assert(discord_markdown::discord_lines(all, p + n - 1, true) == seq![all[p + n - 1]]
            + rest);
        assert(block =~= seq![all[p]] + all.subrange(p + 1, p + n - 1) + seq![all[p + n - 1]]);
        assert(discord_markdown::discord_lines(all, p, false) =~= out);
    } else {
        let rest = discord_markdown::discord_lines(lines, i + 1, false);
        assert(!lines[i].contains('<'));
        formatter_laws::lemma_tags_open();
        formatter_laws::lemma_no_tag_to_drop(lines[i], discord_markdown::dropped_tags());
        assert(out =~= seq![lines[i]] + rest);
        assert(all =~= before.push(lines[i]) + rest);
        lemma_rendered_again(before.push(lines[i]), lines, i + 1, false);
        lemma_rendered(lines, i + 1, false);
        assert(all[p] == lines[i]);
        if i + 1 < lines.len() {
            assert(all[p + 1] == rest[0]);
            lemma_fence();
            lemma_fence_is_no_separator("```"@);
        } else {
            assert(rest =~= Seq::<Seq<char>>::empty());
        }
        assert(!discord_markdown::table_at(all, p));
        assert(discord_markdown::discord_lines(all, p, false) =~= out);
    }
}

/// Rendering Discord's Markdown again changes nothing.
///
/// The text holds no tag and no carriage return, does not end with an empty line, and has no
/// backtick in a line with a pipe: a cell that begins with three of them would be a fence in the
/// rendered table.
pub proof fn rendering_again_changes_nothing(s: Seq<char>)
    requires
        !s.contains('<'),
        !s.contains('\r'),
        !ends_blank(s),
        tables_free(text::lines_of(s), '`'),
    ensures
        discord_markdown::discord_markdown(discord_markdown::discord_markdown(s))
            == discord_markdown::discord_markdown(s),
{
    let none = Seq::<Seq<char>>::empty();
    let nothing = Seq::<char>::empty();
    assert(text::lines_of(nothing) == none);
    assert(discord_markdown::discord_lines(none, 0, false) == none);
    assert(discord_markdown::discord_markdown(nothing) == nothing);
    if s == seq!['\n'] {
        formatter_laws::lemma_char_stands(s, '\n', 0);
        assert(text::find_from(s, seq!['\n'], 0) == Some(0int));
        assert(s.skip(1) =~= nothing);
        assert(s.take(0) =~= nothing);
        assert(text::lines_of(s) =~= seq![nothing]);
        formatter_laws::lemma_tags_open();
        formatter_laws::lemma_no_tag_to_drop(nothing, discord_markdown::dropped_tags());
        lemma_no_fence(nothing);
        let lines = text::lines_of(s);
        assert(!discord_markdown::table_at(lines, 0));
        assert(discord_markdown::discord_lines(lines, 1, false) == none);
        assert(discord_markdown::discord_lines(lines, 0, false) =~= seq![nothing]);
        assert(discord_markdown::discord_markdown(s) == nothing);
    } else if s.len() > 0 {
        let lines = text::lines_of(s);
        let out = discord_markdown::discord_lines(lines, 0, false);
        lemma_lines_free(s, '<');
        lemma_lines_free(s, '\r');
        lemma_lines_free(s, '\n');
        lemma_last_line(s);
        lemma_rendered(lines, 0, false);
        lemma_fence();
        lemma_lines_joined(out);
        lemma_rendered_again(none, lines, 0, false);
        assert(none + out =~= out);
    } else {
        assert(s =~= nothing);
    }
}

/// A text without backticks, tags and carriage returns that does not end with an empty line is
/// rendered the same once and twice.
pub proof fn text_without_code_is_rendered_once(s: Seq<char>)
    requires
        !s.contains('<'),
        !s.contains('`'),
        !s.contains('\r'),
        !ends_blank(s),
    ensures
        discord_markdown::discord_markdown(discord_markdown::discord_markdown(s))
            == discord_markdown::discord_markdown(s),
{
    lemma_lines_free(s, '`');
    rendering_again_changes_nothing(s);
}

} // verus!
