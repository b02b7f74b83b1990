//! Standard Markdown to Discord-flavored Markdown.
//!
//! Discord renders no Markdown tables and no raw HTML tags: a table becomes a monospace code
//! block, and a few tags are dropped. Fenced code blocks are left as they are.

use crate::text;
use vstd::prelude::*;
use vstd::slice::slice_to_vec;

verus! {

// ---------------------------------------------------------------- tables

/// The cells of the pieces: each trimmed, the empty ones left out.
pub open spec fn nonblank(pieces: Seq<Seq<char>>) -> Seq<Seq<char>>
    decreases pieces.len(),
{
    if pieces.len() == 0 {
        Seq::empty()
    } else {
        let cell = text::trimmed(pieces.last());
        let before = nonblank(pieces.drop_last());
        if cell.len() == 0 {
            before
        } else {
            before.push(cell)
        }
    }
}

/// The cells of a table line: what stands between its pipes, trimmed, the empty ones left out.
pub open spec fn cells_of(line: Seq<char>) -> Seq<Seq<char>> {
    nonblank(text::split_on(line, '|'))
}

/// A line of pipes, hyphens, colons and spaces alone, with a pipe and a hyphen among them.
pub open spec fn is_separator(line: Seq<char>) -> bool {
    &&& line.contains('|')
    &&& line.contains('-')
    &&& forall|i: int|
        0 <= i < line.len() ==> line[i] == '|' || line[i] == '-' || line[i] == ':' || line[i] == ' '
}

/// A table begins at line `i`: a line with a pipe, followed by a separator line.
pub open spec fn table_at(lines: Seq<Seq<char>>, i: int) -> bool {
    &&& lines[i].contains('|')
    &&& i + 1 < lines.len()
    &&& is_separator(lines[i + 1])
}

/// The line can be a table row: it has a pipe and at least one cell.
pub open spec fn is_row(line: Seq<char>) -> bool {
    line.contains('|') && cells_of(line).len() > 0
}

/// The first line at or after `i` that is no table row.
pub open spec fn rows_end(lines: Seq<Seq<char>>, i: int) -> int
    decreases lines.len() - i,
{
    if 0 <= i < lines.len() && is_row(lines[i]) {
        rows_end(lines, i + 1)
    } else {
        i
    }
}

/// The cells of the lines from `from` up to `to`.
pub open spec fn rows_between(lines: Seq<Seq<char>>, from: int, to: int) -> Seq<Seq<Seq<char>>> {
    Seq::new((to - from) as nat, |k: int| cells_of(lines[from + k]))
}

/// The width of column `j`: the bytes of its longest cell, header included.
pub open spec fn column_width(header: Seq<Seq<char>>, rows: Seq<Seq<Seq<char>>>, j: int) -> nat
    decreases rows.len(),
{
    if rows.len() == 0 {
        text::byte_len(header[j])
    } else {
        let w = column_width(header, rows.drop_last(), j);
        let row = rows.last();
        if j < row.len() && text::byte_len(row[j]) > w {
            text::byte_len(row[j])
        } else {
            w
        }
    }
}

/// A character repeated.
pub open spec fn repeated(c: char, n: nat) -> Seq<char> {
    Seq::new(n, |i: int| c)
}

/// The cell padded with spaces to at least `w` characters.
pub open spec fn padded(cell: Seq<char>, w: nat) -> Seq<char> {
    if cell.len() < w {
        cell + repeated(' ', (w - cell.len()) as nat)
    } else {
        cell
    }
}

/// One line of the rendered table: a padded cell for each column of the header.
pub open spec fn table_line(
    cells: Seq<Seq<char>>,
    header: Seq<Seq<char>>,
    rows: Seq<Seq<Seq<char>>>,
) -> Seq<char> {
    text::joined(
        Seq::new(
            header.len(),
            |j: int|
                padded(
                    if j < cells.len() {
                        cells[j]
                    } else {
                        Seq::empty()
                    },
                    column_width(header, rows, j),
                ),
        ),
        " | "@,
    )
}

/// The rule under the header of the rendered table.
pub open spec fn rule_line(header: Seq<Seq<char>>, rows: Seq<Seq<Seq<char>>>) -> Seq<char> {
    text::joined(
        Seq::new(header.len(), |j: int| repeated('-', column_width(header, rows, j))),
        "-+-"@,
    )
}

/// A table rendered as a code block: header, rule and one line for each row, between fences.
pub open spec fn rendered_table(header: Seq<Seq<char>>, rows: Seq<Seq<Seq<char>>>) -> Seq<
    Seq<char>,
> {
    seq!["```"@, table_line(header, header, rows), rule_line(header, rows)] + Seq::new(
        rows.len(),
        |k: int| table_line(rows[k], header, rows),
    ) + seq!["```"@]
}

/// The table that begins at line `i`, rendered.
pub open spec fn table_from(lines: Seq<Seq<char>>, i: int) -> Seq<Seq<char>> {
    rendered_table(cells_of(lines[i]), rows_between(lines, i + 2, rows_end(lines, i + 2)))
}

// ---------------------------------------------------------------- whole texts

/// The HTML tags that Discord does not render, in the order in which they are dropped.
pub open spec fn dropped_tags() -> Seq<Seq<char>> {
    seq![
        "<br>"@,
        "<br/>"@,
        "<br />"@,
        "<hr>"@,
        "<hr/>"@,
        "<hr />"@,
        "<p>"@,
        "</p>"@,
        "<div>"@,
        "</div>"@,
        "<span>"@,
        "</span>"@,
    ]
}

/// The line without the tags, dropped one kind after the other.
pub open spec fn without_tags(line: Seq<char>, tags: Seq<Seq<char>>) -> Seq<char>
    decreases tags.len(),
{
    if tags.len() == 0 {
        line
    } else {
        text::replaced(without_tags(line, tags.drop_last()), tags.last(), Seq::empty())
    }
}

/// The line opens or closes a fenced code block.
pub open spec fn is_fence(line: Seq<char>) -> bool {
    text::has_prefix(text::trimmed_start(line), "```"@)
}

/// The output lines for the input lines from `i` on.
///
/// A fence and what stands between fences is kept; a table is rendered; any other line loses
/// the tags that Discord does not render.
pub open spec fn discord_lines(lines: Seq<Seq<char>>, i: int, in_code: bool) -> Seq<Seq<char>>
    decreases lines.len() - i,
{
    if i < 0 || i >= lines.len() {
        Seq::empty()
    } else if is_fence(lines[i]) {
        seq![lines[i]] + discord_lines(lines, i + 1, !in_code)
    } else if in_code {
        seq![lines[i]] + discord_lines(lines, i + 1, in_code)
    } else if table_at(lines, i) {
        proof {
            lemma_rows_end(lines, i + 2);
        }
        table_from(lines, i) + discord_lines(lines, rows_end(lines, i + 2), in_code)
    } else {
        seq![without_tags(lines[i], dropped_tags())] + discord_lines(lines, i + 1, in_code)
    }
}

/// Markdown as Discord renders it.
pub open spec fn discord_markdown(s: Seq<char>) -> Seq<char> {
    text::joined(discord_lines(text::lines_of(s), 0, false), "\n"@)
}

// ---------------------------------------------------------------- code

/// The rows of a table end within the text.
pub proof fn lemma_rows_end(lines: Seq<Seq<char>>, i: int)
    requires
        0 <= i <= lines.len(),
    ensures
        i <= rows_end(lines, i) <= lines.len(),
    decreases lines.len() - i,
{
    if i < lines.len() && is_row(lines[i]) {
        lemma_rows_end(lines, i + 1);
    }
}

proof fn lemma_nonblank_fits(pieces: Seq<Seq<char>>, limit: nat)
    requires
        text::parts_fit(pieces, limit),
    ensures
        text::parts_fit(nonblank(pieces), limit),
    decreases pieces.len(),
{
    if pieces.len() > 0 {
        assert forall|i: int| 0 <= i < pieces.drop_last().len() implies text::byte_len(
            #[trigger] pieces.drop_last()[i],
        ) <= limit by {
            assert(pieces.drop_last()[i] == pieces[i]);
        }
        lemma_nonblank_fits(pieces.drop_last(), limit);
        text::lemma_trimmed_fits(pieces.last());
        assert(text::byte_len(pieces[pieces.len() - 1]) <= limit);
    }
}

proof fn lemma_cells_fit(line: Seq<char>)
    ensures
        text::parts_fit(cells_of(line), text::byte_len(line)),
{
    text::lemma_split_fits(line, '|');
    lemma_nonblank_fits(text::split_on(line, '|'), text::byte_len(line));
}

/// The cells of a table line.
fn cells(line: &[char]) -> (r: Vec<Vec<char>>)
    ensures
        text::texts(r@) == cells_of(line@),
{
    let pieces = text::split(line, '|');
    let ghost all = text::texts(pieces@);
    let mut out: Vec<Vec<char>> = Vec::new();
    let mut i: usize = 0;
    assert(all.take(0) =~= Seq::<Seq<char>>::empty());
    assert(text::texts(out@) =~= Seq::<Seq<char>>::empty());
    while i < pieces.len()
        invariant
            i <= pieces@.len(),
            all == text::texts(pieces@),
            text::texts(out@) == nonblank(all.take(i as int)),
        decreases pieces@.len() - i,
    {
        let cell = text::trim(pieces[i].as_slice());
        proof {
            assert(all.take(i + 1).drop_last() =~= all.take(i as int));
            assert(all.take(i + 1).last() == pieces@[i as int]@);
        }
        if cell.len() > 0 {
            let piece = slice_to_vec(cell);
            proof {
                text::lemma_texts_push(out@, piece);
            }
            out.push(piece);
        }
        i += 1;
    }
    assert(all.take(all.len() as int) =~= all);
    out
}

/// Whether the line separates a table's header from its rows.
fn separator(line: &[char]) -> (r: bool)
    ensures
        r == is_separator(line@),
{
    if !text::contains_char(line, '|') || !text::contains_char(line, '-') {
        return false;
    }
    let mut i: usize = 0;
    while i < line.len()
        invariant
            i <= line@.len(),
            forall|k: int|
                0 <= k < i ==> line@[k] == '|' || line@[k] == '-' || line@[k] == ':' || line@[k]
                    == ' ',
        decreases line@.len() - i,
    {
        let c: char = line[i];
        if c != '|' && c != '-' && c != ':' && c != ' ' {
            return false;
        }
        i += 1;
    }
    true
}

/// The rows of a table: the cells of each row.
pub open spec fn row_texts(rows: Seq<Vec<Vec<char>>>) -> Seq<Seq<Seq<char>>> {
    rows.map_values(|r: Vec<Vec<char>>| text::texts(r@))
}

fn column_widths(header: &Vec<Vec<char>>, rows: &Vec<Vec<Vec<char>>>) -> (r: Vec<usize>)
    requires
        text::parts_fit(text::texts(header@), usize::MAX as nat),
        forall|k: int|
            0 <= k < rows@.len() ==> text::parts_fit(
                #[trigger] row_texts(rows@)[k],
                usize::MAX as nat,
            ),
    ensures
        r@.len() == header@.len(),
        forall|j: int|
            0 <= j < r@.len() ==> r@[j] == column_width(
                text::texts(header@),
                row_texts(rows@),
                j,
            ),
{
    let ghost h = text::texts(header@);
    let ghost all = row_texts(rows@);
    let mut out: Vec<usize> = Vec::new();
    let mut j: usize = 0;
    while j < header.len()
        invariant
            j <= header@.len(),
            h == text::texts(header@),
            all == row_texts(rows@),
            text::parts_fit(h, usize::MAX as nat),
            forall|k: int|
                0 <= k < rows@.len() ==> text::parts_fit(#[trigger] all[k], usize::MAX as nat),
            out@.len() == j,
            forall|i: int| 0 <= i < j ==> out@[i] == column_width(h, all, i),
        decreases header@.len() - j,
    {
        assert(text::byte_len(h[j as int]) <= usize::MAX);
        let mut w: usize = text::bytes_in(header[j].as_slice());
        let mut k: usize = 0;
        assert(all.take(0) =~= Seq::<Seq<Seq<char>>>::empty());
        while k < rows.len()
            invariant
                k <= rows@.len(),
                j < header@.len(),
                h == text::texts(header@),
                all == row_texts(rows@),
                forall|k: int|
                    0 <= k < rows@.len() ==> text::parts_fit(#[trigger] all[k], usize::MAX as nat),
                w == column_width(h, all.take(k as int), j as int),
            decreases rows@.len() - k,
        {
            proof {
                assert(all.take(k + 1).drop_last() =~= all.take(k as int));
                assert(all.take(k + 1).last() == all[k as int]);
                assert(all[k as int] == text::texts(rows@[k as int]@));
            }
            if j < rows[k].len() {
                assert(text::byte_len(all[k as int][j as int]) <= usize::MAX);
                let n: usize = text::bytes_in(rows[k][j].as_slice());
                if n > w {
                    w = n;
                }
            }
            k += 1;
        }
        assert(all.take(all.len() as int) =~= all);
        out.push(w);
        j += 1;
    }
    out
}

fn repeat(c: char, n: usize) -> (r: Vec<char>)
    ensures
        r@ == repeated(c, n as nat),
{
    let mut out: Vec<char> = Vec::new();
    let mut i: usize = 0;
    while i < n
        invariant
            i <= n,
            out@ =~= repeated(c, i as nat),
        decreases n - i,
    {
        out.push(c);
        i += 1;
    }
    out
}

fn pad(cell: &[char], w: usize) -> (r: Vec<char>)
    ensures
        r@ == padded(cell@, w as nat),
{
    let mut out = slice_to_vec(cell);
    if cell.len() < w {
        let spaces = repeat(' ', w - cell.len());
        text::extend(&mut out, spaces.as_slice());
    }
    out
}

fn write_table_line(
    cells: &Vec<Vec<char>>,
    header: &Vec<Vec<char>>,
    rows: &Vec<Vec<Vec<char>>>,
    widths: &Vec<usize>,
) -> (r: Vec<char>)
    requires
        widths@.len() == header@.len(),
        forall|j: int|
            0 <= j < widths@.len() ==> widths@[j] == column_width(
                text::texts(header@),
                row_texts(rows@),
                j,
            ),
    ensures
        r@ == table_line(text::texts(cells@), text::texts(header@), row_texts(rows@)),
{
    let ghost h = text::texts(header@);
    let ghost all = row_texts(rows@);
    let ghost c = text::texts(cells@);
    let mut parts: Vec<Vec<char>> = Vec::new();
    let mut j: usize = 0;
    let empty: Vec<char> = Vec::new();
    while j < widths.len()
        invariant
            j <= widths@.len(),
            widths@.len() == header@.len(),
            h == text::texts(header@),
            all == row_texts(rows@),
            c == text::texts(cells@),
            empty@ =~= Seq::<char>::empty(),
            forall|j: int| 0 <= j < widths@.len() ==> widths@[j] == column_width(h, all, j),
            parts@.len() == j,
            forall|i: int|
                0 <= i < j ==> (#[trigger] parts@[i])@ == padded(
                    if i < c.len() {
                        c[i]
                    } else {
                        Seq::empty()
                    },
                    column_width(h, all, i),
                ),
        decreases widths@.len() - j,
    {
        let piece = if j < cells.len() {
            pad(cells[j].as_slice(), widths[j])
        } else {
            pad(empty.as_slice(), widths[j])
        };
        parts.push(piece);
        j += 1;
    }
    assert(text::texts(parts@) =~= Seq::new(
        h.len(),
        |j: int|
            padded(
                if j < c.len() {
                    c[j]
                } else {
                    Seq::empty()
                },
                column_width(h, all, j),
            ),
    ));
    text::join(&parts, " | ")
}

fn write_rule_line(
    header: &Vec<Vec<char>>,
    rows: &Vec<Vec<Vec<char>>>,
    widths: &Vec<usize>,
) -> (r: Vec<char>)
    requires
        widths@.len() == header@.len(),
        forall|j: int|
            0 <= j < widths@.len() ==> widths@[j] == column_width(
                text::texts(header@),
                row_texts(rows@),
                j,
            ),
    ensures
        r@ == rule_line(text::texts(header@), row_texts(rows@)),
{
    let ghost h = text::texts(header@);
    let ghost all = row_texts(rows@);
    let mut parts: Vec<Vec<char>> = Vec::new();
    let mut j: usize = 0;
    while j < widths.len()
        invariant
            j <= widths@.len(),
            widths@.len() == header@.len(),
            h == text::texts(header@),
            all == row_texts(rows@),
            forall|j: int| 0 <= j < widths@.len() ==> widths@[j] == column_width(h, all, j),
            parts@.len() == j,
            forall|i: int|
                0 <= i < j ==> (#[trigger] parts@[i])@ == repeated('-', column_width(h, all, i)),
        decreases widths@.len() - j,
    {
        parts.push(repeat('-', widths[j]));
        j += 1;
    }
    assert(text::texts(parts@) =~= Seq::new(
        h.len(),
        |j: int| repeated('-', column_width(h, all, j)),
    ));
    text::join(&parts, "-+-")
}

/// Renders a table as a code block.
fn render_table(header: &Vec<Vec<char>>, rows: &Vec<Vec<Vec<char>>>) -> (r: Vec<Vec<char>>)
    requires
        text::parts_fit(text::texts(header@), usize::MAX as nat),
        forall|k: int|
            0 <= k < rows@.len() ==> text::parts_fit(
                #[trigger] row_texts(rows@)[k],
                usize::MAX as nat,
            ),
    ensures
        text::texts(r@) == rendered_table(text::texts(header@), row_texts(rows@)),
{
    let ghost h = text::texts(header@);
    let ghost all = row_texts(rows@);
    let widths = column_widths(header, rows);
    let mut out: Vec<Vec<char>> = Vec::new();
    out.push(text::chars_of("```"));
    out.push(write_table_line(header, header, rows, &widths));
    out.push(write_rule_line(header, rows, &widths));
    let mut k: usize = 0;
    while k < rows.len()
        invariant
            k <= rows@.len(),
            h == text::texts(header@),
            all == row_texts(rows@),
            widths@.len() == header@.len(),
            forall|j: int| 0 <= j < widths@.len() ==> widths@[j] == column_width(h, all, j),
            out@.len() == 3 + k,
            out@[0]@ == "```"@,
            out@[1]@ == table_line(h, h, all),
            out@[2]@ == rule_line(h, all),
            forall|i: int| 0 <= i < k ==> out@[3 + i]@ == table_line(#[trigger] all[i], h, all),
        decreases rows@.len() - k,
    {
        assert(all[k as int] == text::texts(rows@[k as int]@));
        out.push(write_table_line(&rows[k], header, rows, &widths));
        k += 1;
    }
    out.push(text::chars_of("```"));
    assert(text::texts(out@) =~= rendered_table(h, all)) by {
        let want = rendered_table(h, all);
        assert forall|i: int| 0 <= i < want.len() implies text::texts(out@)[i] == want[i] by {
            if 3 <= i < 3 + rows@.len() {
                assert(all[i - 3] == all[i - 3]);
                assert(out@[3 + (i - 3)]@ == table_line(all[i - 3], h, all));
            }
        }
    }
    out
}

proof fn lemma_without_tags_step(line: Seq<char>, tags: Seq<Seq<char>>, i: int)
    requires
        0 <= i < tags.len(),
    ensures
        without_tags(line, tags.take(i + 1)) == text::replaced(
            without_tags(line, tags.take(i)),
            tags[i],
            Seq::empty(),
        ),
{
    assert(tags.take(i + 1).drop_last() =~= tags.take(i));
    assert(tags.take(i + 1).last() == tags[i]);
}

/// The line without the HTML tags that Discord does not render.
fn strip_tags(line: &[char]) -> (r: Vec<char>)
    ensures
        r@ == without_tags(line@, dropped_tags()),
{
    let tags: Vec<&str> = vec![
        "<br>", "<br/>", "<br />", "<hr>", "<hr/>", "<hr />", "<p>", "</p>", "<div>", "</div>",
        "<span>", "</span>",
    ];
    let ghost all = dropped_tags();
    proof {
        reveal_strlit("<br>");
        reveal_strlit("<br/>");
        reveal_strlit("<br />");
        reveal_strlit("<hr>");
        reveal_strlit("<hr/>");
        reveal_strlit("<hr />");
        reveal_strlit("<p>");
        reveal_strlit("</p>");
        reveal_strlit("<div>");
        reveal_strlit("</div>");
        reveal_strlit("<span>");
        reveal_strlit("</span>");
    }
    let empty: Vec<char> = Vec::new();
    let mut out = slice_to_vec(line);
    let mut i: usize = 0;
    assert(all.take(0) =~= Seq::<Seq<char>>::empty());
    while i < tags.len()
        invariant
            i <= tags@.len(),
            all == dropped_tags(),
            tags@.len() == all.len(),
            empty@ =~= Seq::<char>::empty(),
            forall|k: int|
                0 <= k < all.len() ==> (#[trigger] tags@[k])@ == all[k] && all[k].len() > 0,
            out@ == without_tags(line@, all.take(i as int)),
        decreases tags@.len() - i,
    {
        let tag = text::chars_of(tags[i]);
        proof {
            lemma_without_tags_step(line@, all, i as int);
            assert(tags@[i as int]@ == all[i as int]);
        }
        out = text::replace(out.as_slice(), tag.as_slice(), empty.as_slice());
        i += 1;
    }
    assert(all.take(all.len() as int) =~= all);
    out
}

/// Whether the line opens or closes a fenced code block.
fn fence(line: &[char]) -> (r: bool)
    ensures
        r == is_fence(line@),
{
    let mark = text::chars_of("```");
    text::at(text::trim_start(line), mark.as_slice(), 0)
}

/// The rows of the table from line `from` on, and the line after the last of them.
fn table_rows(lines: &Vec<Vec<char>>, from: usize) -> (r: (Vec<Vec<Vec<char>>>, usize))
    requires
        from <= lines@.len(),
    ensures
        r.1 == rows_end(text::texts(lines@), from as int),
        from <= r.1 <= lines@.len(),
        row_texts(r.0@) == rows_between(text::texts(lines@), from as int, r.1 as int),
{
    let ghost all = text::texts(lines@);
    let mut rows: Vec<Vec<Vec<char>>> = Vec::new();
    let mut i: usize = from;
    assert(row_texts(rows@) =~= rows_between(all, from as int, i as int));
    loop
        invariant
            from <= i <= lines@.len(),
            all == text::texts(lines@),
            rows_end(all, i as int) == rows_end(all, from as int),
            rows@.len() == i - from,
            row_texts(rows@) == rows_between(all, from as int, i as int),
        decreases lines@.len() - i,
    {
        if i >= lines.len() {
            return (rows, i);
        }
        assert(all[i as int] == lines@[i as int]@);
        if !text::contains_char(lines[i].as_slice(), '|') {
            return (rows, i);
        }
        let row = cells(lines[i].as_slice());
        if row.len() == 0 {
            assert(text::texts(row@).len() == 0);
            return (rows, i);
        }
        assert(text::texts(row@).len() > 0);
        let ghost before = rows@;
        rows.push(row);
        i += 1;
        assert(row_texts(rows@) =~= rows_between(all, from as int, i as int)) by {
            assert forall|k: int| 0 <= k < rows@.len() implies row_texts(rows@)[k] == rows_between(
                all,
                from as int,
                i as int,
            )[k] by {
                if k < before.len() {
                    assert(row_texts(rows@)[k] == row_texts(before)[k]);
                    assert(rows_between(all, from as int, i - 1)[k] == cells_of(all[from + k]));
                }
            }
        }
    }
}

/// Convert standard Markdown to Discord-flavored Markdown.
///
/// Discord supports: **bold**, *italic*, __underline__, ~~strikethrough~~,
/// `inline code`, ```code blocks```, > blockquotes, # ## ### headers,
/// - unordered lists, ordered lists, [text](url) links, ||spoilers||.
///
/// Discord does NOT support: Markdown tables, raw HTML tags.
/// This function converts tables into monospace code blocks.
pub fn markdown_to_discord(text: &str) -> (r: String)
    ensures
        r@ == discord_markdown(text@),
{
    text::string_fits(text);
    let chars = text::chars_of(text);
    let lines = text::lines(chars.as_slice());
    let ghost all = text::texts(lines@);
    proof {
        text::lemma_lines_fit(text@);
    }
    let mut result: Vec<Vec<char>> = Vec::new();
    let mut i: usize = 0;
    let mut in_code: bool = false;
    assert(text::texts(result@) =~= Seq::<Seq<char>>::empty());
    while i < lines.len()
        invariant
            i <= lines@.len(),
            all == text::texts(lines@),
            all == text::lines_of(text@),
            text::byte_len(text@) <= usize::MAX,
            text::parts_fit(all, text::byte_len(text@)),
            text::texts(result@) + discord_lines(all, i as int, in_code) =~= discord_lines(
                all,
                0,
                false,
            ),
        decreases lines@.len() - i,
    {
        let line = lines[i].as_slice();
        let ghost done = text::texts(result@);
        assert(all[i as int] == line@);
        if fence(line) || in_code {
            if fence(line) {
                in_code = !in_code;
            }
            let piece = slice_to_vec(line);
            proof {
                text::lemma_texts_push(result@, piece);
                let tail = discord_lines(all, i + 1, in_code);
                assert(done.push(piece@) + tail =~= done + (seq![piece@] + tail));
            }
            result.push(piece);
            i += 1;
        } else if text::contains_char(line, '|') && i + 1 < lines.len() && separator(
            lines[i + 1].as_slice(),
        ) {
            assert(all[i + 1] == lines@[i + 1]@);
            let header = cells(line);
            let (rows, end) = table_rows(&lines, i + 2);
            proof {
                lemma_cells_fit(line@);
                assert(text::parts_fit(text::texts(header@), usize::MAX as nat)) by {
                    assert(text::byte_len(all[i as int]) <= text::byte_len(text@));
                }
                assert forall|k: int| 0 <= k < rows@.len() implies text::parts_fit(
                    #[trigger] row_texts(rows@)[k],
                    usize::MAX as nat,
                ) by {
                    lemma_cells_fit(all[i + 2 + k]);
                    assert(text::byte_len(all[i + 2 + k]) <= text::byte_len(text@));
                    assert(row_texts(rows@)[k] == cells_of(all[i + 2 + k]));
                }
            }
            let mut block = render_table(&header, &rows);
            let ghost rendered = text::texts(block@);
            let ghost before = result@;
            let ghost added = block@;
            result.append(&mut block);
            proof {
                let tail = discord_lines(all, end as int, in_code);
                assert(text::texts(result@) =~= done + rendered);
                assert(done + rendered + tail =~= done + (rendered + tail));
            }
            i = end;
        } else {
            proof {
                if i + 1 < lines@.len() {
                    assert(all[i + 1] == lines@[i + 1]@);
                }
            }
            let piece = strip_tags(line);
            proof {
                text::lemma_texts_push(result@, piece);
                let tail = discord_lines(all, i + 1, in_code);
                assert(done.push(piece@) + tail =~= done + (seq![piece@] + tail));
            }
            result.push(piece);
            i += 1;
        }
    }
    proof {
        assert(text::texts(result@) + Seq::<Seq<char>>::empty() =~= text::texts(result@));
    }
    let out = text::join(&result, "\n");
    text::string_of(out.as_slice())
}

} // verus!
