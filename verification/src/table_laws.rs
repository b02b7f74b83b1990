//! What holds of the lines that Discord is given: what becomes of tables, fenced code and tags.

use crate::discord_markdown;
use crate::text;
use crate::text_laws;
use vstd::prelude::*;

verus! {

// ---------------------------------------------------------------- cells

proof fn lemma_nonblank_sum(a: Seq<Seq<char>>, b: Seq<Seq<char>>)
    ensures
        discord_markdown::nonblank(a + b) == discord_markdown::nonblank(a)
            + discord_markdown::nonblank(b),
    decreases b.len(),
{
    let left = discord_markdown::nonblank(a);
    if b.len() == 0 {
        assert(a + b =~= a);
        assert(left + discord_markdown::nonblank(b) =~= left);
    } else {
        assert((a + b).drop_last() =~= a + b.drop_last());
        assert((a + b).last() == b.last());
        lemma_nonblank_sum(a, b.drop_last());
        let before = discord_markdown::nonblank(b.drop_last());
        let cell = text::trimmed(b.last());
        assert((left + before).push(cell) =~= left + before.push(cell));
    }
}

proof fn lemma_split_sum(a: Seq<char>, b: Seq<char>)
    ensures
        text::split_on(a + seq!['|'] + b, '|') == text::split_on(a, '|') + text::split_on(b, '|'),
    decreases a.len(),
{
    if !a.contains('|') {
        text_laws::splitting_is_piece_by_piece(a, b, '|');
    } else {
        text_laws::the_first_character_is_found(a, '|');
        let i = text::find_from(a, seq!['|'], 0)->0;
        let piece = a.take(i);
        let rest = a.skip(i + 1);
        assert(!piece.contains('|'));
        assert(a =~= piece + seq!['|'] + rest);
        text_laws::splitting_is_piece_by_piece(piece, rest, '|');
        assert(a + seq!['|'] + b =~= piece + seq!['|'] + (rest + seq!['|'] + b));
        text_laws::splitting_is_piece_by_piece(piece, rest + seq!['|'] + b, '|');
        lemma_split_sum(rest, b);
        assert(seq![piece] + (text::split_on(rest, '|') + text::split_on(b, '|')) =~= seq![piece]
            + text::split_on(rest, '|') + text::split_on(b, '|'));
    }
}

/// The cells of a line are what stands between its pipes, each without the white space around it,
/// and none where only white space stands.
pub proof fn cells_stand_between_pipes(a: Seq<char>, b: Seq<char>)
    ensures
        discord_markdown::cells_of(a + seq!['|'] + b) == discord_markdown::cells_of(a)
            + discord_markdown::cells_of(b),
        !a.contains('|') && text::trimmed(a).len() > 0 ==> discord_markdown::cells_of(a) == seq![
            text::trimmed(a),
        ],
        !a.contains('|') && text::trimmed(a).len() == 0 ==> discord_markdown::cells_of(a).len() == 0,
{
    lemma_split_sum(a, b);
    lemma_nonblank_sum(text::split_on(a, '|'), text::split_on(b, '|'));
    if !a.contains('|') {
        text_laws::splitting_is_piece_by_piece(a, b, '|');
        let one = seq![a];
        assert(one.drop_last() =~= Seq::<Seq<char>>::empty());
        assert(discord_markdown::nonblank(one.drop_last()) =~= Seq::<Seq<char>>::empty());
        assert(Seq::<Seq<char>>::empty().push(text::trimmed(a)) =~= seq![text::trimmed(a)]);
    }
}

/// A cell holds no pipe, and neither begins nor ends with white space.
pub proof fn cells_are_tight(line: Seq<char>, j: int)
    requires
        0 <= j < discord_markdown::cells_of(line).len(),
    ensures
        text_laws::is_tight(discord_markdown::cells_of(line)[j]),
        !discord_markdown::cells_of(line)[j].contains('|'),
    decreases line.len(),
{
    if !line.contains('|') {
        cells_stand_between_pipes(line, line);
        let p = text_laws::trimmed_text_stands_in_the_text(line);
        let cell = text::trimmed(line);
        assert forall|k: int| 0 <= k < cell.len() implies cell[k] != '|' by {
            assert(line[p.0 + k] == cell[k]);
        }
    } else {
        text_laws::the_first_character_is_found(line, '|');
        let i = text::find_from(line, seq!['|'], 0)->0;
        let piece = line.take(i);
        let rest = line.skip(i + 1);
        assert(!piece.contains('|'));
        assert(line =~= piece + seq!['|'] + rest);
        cells_stand_between_pipes(piece, rest);
        let n = discord_markdown::cells_of(piece).len();
        if j < n {
            cells_are_tight(piece, j);
        } else {
            cells_are_tight(rest, j - n);
        }
    }
}

// ---------------------------------------------------------------- tables

/// The line opens or closes fenced code: it begins with three backquotes, but for white space.
pub open spec fn fences(line: Seq<char>) -> bool {
    let t = text::trimmed_start(line);
    t.len() >= 3 && t[0] == '`' && t[1] == '`' && t[2] == '`'
}

/// The line has a pipe and something other than white space and pipes.
pub open spec fn tells_cells(line: Seq<char>) -> bool {
    &&& line.contains('|')
    &&& exists|i: int| 0 <= i < line.len() && line[i] != '|' && !text::is_white(#[trigger] line[i])
}

/// The line parts a header from its rows.
pub open spec fn parts_header(line: Seq<char>) -> bool {
    &&& line.contains('|')
    &&& line.contains('-')
    &&& forall|i: int| 0 <= i < line.len() ==> seq!['|', '-', ':', ' '].contains(#[trigger] line[i])
}

/// A table stands at the lines from `i` up to `e`: a header, a line that parts it from the rows, and
/// all the rows that follow.
pub open spec fn is_table(lines: Seq<Seq<char>>, i: int, e: int) -> bool {
    &&& 0 <= i && i + 2 <= e <= lines.len()
    &&& lines[i].contains('|')
    &&& !fences(lines[i])
    &&& parts_header(lines[i + 1])
    &&& forall|k: int| i + 2 <= k < e ==> tells_cells(#[trigger] lines[k])
    &&& e < lines.len() ==> !tells_cells(lines[e])
}

/// The text is the cell, followed by as many spaces as the width asks for.
pub open spec fn pads(out: Seq<char>, cell: Seq<char>, width: nat) -> bool {
    &&& out.len() == if cell.len() < width {
        width
    } else {
        cell.len()
    }
    &&& forall|i: int| 0 <= i < cell.len() ==> #[trigger] out[i] == cell[i]
    &&& forall|i: int| cell.len() <= i < out.len() ==> #[trigger] out[i] == ' '
}

/// The line shows one padded cell for each width, whatever the row has under that column, with bars
/// between them.
pub open spec fn shows(line: Seq<char>, cells: Seq<Seq<char>>, widths: Seq<nat>) -> bool {
    exists|parts: Seq<Seq<char>>| #[trigger]
        text::joined(parts, " | "@) == line && parts.len() == widths.len() && shown(
            parts,
            cells,
            widths,
        )
}

pub open spec fn shown(parts: Seq<Seq<char>>, cells: Seq<Seq<char>>, widths: Seq<nat>) -> bool {
    forall|j: int|
        0 <= j < parts.len() ==> pads(
            #[trigger] parts[j],
            if j < cells.len() {
                cells[j]
            } else {
                Seq::empty()
            },
            widths[j],
        )
}

/// The line is a rule below cells of the given widths.
pub open spec fn rules(line: Seq<char>, widths: Seq<nat>) -> bool {
    exists|parts: Seq<Seq<char>>| #[trigger]
        text::joined(parts, "-+-"@) == line && parts.len() == widths.len() && hyphens(parts, widths)
}

pub open spec fn hyphens(parts: Seq<Seq<char>>, widths: Seq<nat>) -> bool {
    forall|j: int|
        0 <= j < parts.len() ==> (#[trigger] parts[j]).len() == widths[j] && forall|i: int|
            0 <= i < widths[j] ==> #[trigger] parts[j][i] == '-'
}

/// The width is that of the widest cell of the column, in bytes.
pub open spec fn widest(width: nat, lines: Seq<Seq<char>>, i: int, e: int, j: int) -> bool {
    &&& text::byte_len(discord_markdown::cells_of(lines[i])[j]) <= width
    &&& forall|k: int|
        i + 2 <= k < e && j < discord_markdown::cells_of(#[trigger] lines[k]).len()
            ==> text::byte_len(discord_markdown::cells_of(lines[k])[j]) <= width
    &&& width == text::byte_len(discord_markdown::cells_of(lines[i])[j]) || exists|k: int|
        i + 2 <= k < e && j < discord_markdown::cells_of(#[trigger] lines[k]).len() && width
            == text::byte_len(discord_markdown::cells_of(lines[k])[j])
}

proof fn lemma_tells_cells(line: Seq<char>)
    ensures
        tells_cells(line) == (line.contains('|') && discord_markdown::cells_of(line).len() > 0),
{
    if discord_markdown::cells_of(line).len() > 0 {
        lemma_cell_shows(line, 0);
    }
    if exists|i: int| 0 <= i < line.len() && line[i] != '|' && !text::is_white(#[trigger] line[i]) {
        let i = choose|i: int|
            0 <= i < line.len() && line[i] != '|' && !text::is_white(#[trigger] line[i]);
        lemma_character_shows(line, i);
    }
}

proof fn lemma_cell_shows(line: Seq<char>, j: int)
    requires
        0 <= j < discord_markdown::cells_of(line).len(),
    ensures
        exists|i: int| 0 <= i < line.len() && line[i] != '|' && !text::is_white(#[trigger] line[i]),
    decreases line.len(),
{
    if !line.contains('|') {
        cells_stand_between_pipes(line, line);
        let p = text_laws::trimmed_text_stands_in_the_text(line);
        let cell = line.subrange(p.0, p.1);
        assert(line[p.0] == cell[0]);
        assert(line[p.0] != '|' && !text::is_white(line[p.0]));
    } else {
        text_laws::the_first_character_is_found(line, '|');
        let i = text::find_from(line, seq!['|'], 0)->0;
        let piece = line.take(i);
        let rest = line.skip(i + 1);
        assert(!piece.contains('|'));
        assert(line =~= piece + seq!['|'] + rest);
        cells_stand_between_pipes(piece, rest);
        let n = discord_markdown::cells_of(piece).len();
        if j < n {
            lemma_cell_shows(piece, j);
            let k = choose|k: int|
                0 <= k < piece.len() && piece[k] != '|' && !text::is_white(#[trigger] piece[k]);
            assert(line[k] == piece[k]);
        } else {
            lemma_cell_shows(rest, j - n);
            let k = choose|k: int|
                0 <= k < rest.len() && rest[k] != '|' && !text::is_white(#[trigger] rest[k]);
            assert(line[i + 1 + k] == rest[k]);
        }
    }
}

proof fn lemma_character_shows(line: Seq<char>, at: int)
    requires
        0 <= at < line.len(),
        line[at] != '|',
        !text::is_white(line[at]),
    ensures
        discord_markdown::cells_of(line).len() > 0,
    decreases line.len(),
{
    if !line.contains('|') {
        cells_stand_between_pipes(line, line);
        let p = text_laws::trimmed_text_stands_in_the_text(line);
        assert(!text_laws::all_white(line));
    } else {
        text_laws::the_first_character_is_found(line, '|');
        let i = text::find_from(line, seq!['|'], 0)->0;
        let piece = line.take(i);
        let rest = line.skip(i + 1);
        assert(line =~= piece + seq!['|'] + rest);
        cells_stand_between_pipes(piece, rest);
        if at < i {
            lemma_character_shows(piece, at);
        } else {
            assert(at > i);
            assert(rest[at - i - 1] == line[at]);
            lemma_character_shows(rest, at - i - 1);
        }
    }
}

proof fn lemma_separator(line: Seq<char>)
    ensures
        parts_header(line) == discord_markdown::is_separator(line),
{
    let marks = seq!['|', '-', ':', ' '];
    if parts_header(line) {
        assert forall|i: int| 0 <= i < line.len() implies line[i] == '|' || line[i] == '-'
            || line[i] == ':' || line[i] == ' ' by {
            assert(marks.contains(line[i]));
        }
    }
    if discord_markdown::is_separator(line) {
        assert forall|i: int| 0 <= i < line.len() implies marks.contains(#[trigger] line[i]) by {
            assert(marks[0] == '|' && marks[1] == '-' && marks[2] == ':' && marks[3] == ' ');
        }
    }
}

proof fn lemma_fences(line: Seq<char>)
    ensures
        fences(line) == discord_markdown::is_fence(line),
{
    reveal_strlit("```");
    let t = text::trimmed_start(line);
    let f = "```"@;
    assert(f.len() == 3);
    if fences(line) {
        assert(t.take(3) =~= f);
    }
    if text::has_prefix(t, f) {
        assert(t.take(3)[0] == f[0] && t.take(3)[1] == f[1] && t.take(3)[2] == f[2]);
    }
}

proof fn lemma_end_of_rows(lines: Seq<Seq<char>>, i: int, e: int)
    requires
        0 <= i <= e <= lines.len(),
        forall|k: int| i <= k < e ==> tells_cells(#[trigger] lines[k]),
        e < lines.len() ==> !tells_cells(lines[e]),
    ensures
        discord_markdown::rows_end(lines, i) == e,
    decreases e - i,
{
    if i < lines.len() {
        lemma_tells_cells(lines[i]);
    }
    if i < e {
        assert(tells_cells(lines[i]));
        lemma_end_of_rows(lines, i + 1, e);
    }
}

proof fn lemma_width(header: Seq<Seq<char>>, rows: Seq<Seq<Seq<char>>>, j: int)
    requires
        0 <= j < header.len(),
    ensures
        text::byte_len(header[j]) <= discord_markdown::column_width(header, rows, j),
        forall|k: int|
            0 <= k < rows.len() && j < (#[trigger] rows[k]).len() ==> text::byte_len(rows[k][j])
                <= discord_markdown::column_width(header, rows, j),
        discord_markdown::column_width(header, rows, j) == text::byte_len(header[j]) || exists|k: int|
            0 <= k < rows.len() && j < (#[trigger] rows[k]).len() && discord_markdown::column_width(
                header,
                rows,
                j,
            ) == text::byte_len(rows[k][j]),
    decreases rows.len(),
{
    if rows.len() > 0 {
        let front = rows.drop_last();
        let n = rows.len() - 1;
        lemma_width(header, front, j);
        let w = discord_markdown::column_width(header, rows, j);
        assert(rows[n] == rows.last());
        assert forall|k: int| 0 <= k < rows.len() && j < (#[trigger] rows[k]).len() implies text::byte_len(
            rows[k][j],
        ) <= w by {
            if k < n {
                assert(front[k] == rows[k]);
            }
        }
        if w == discord_markdown::column_width(header, front, j) && w != text::byte_len(header[j]) {
            let k = choose|k: int|
                0 <= k < front.len() && j < (#[trigger] front[k]).len() && w == text::byte_len(
                    front[k][j],
                );
            assert(rows[k] == front[k]);
        }
    }
}

proof fn lemma_shows(
    cells: Seq<Seq<char>>,
    header: Seq<Seq<char>>,
    rows: Seq<Seq<Seq<char>>>,
    widths: Seq<nat>,
)
    requires
        widths.len() == header.len(),
        forall|j: int|
            0 <= j < widths.len() ==> #[trigger] widths[j] == discord_markdown::column_width(
                header,
                rows,
                j,
            ),
    ensures
        shows(discord_markdown::table_line(cells, header, rows), cells, widths),
        rules(discord_markdown::rule_line(header, rows), widths),
{
    let parts = Seq::new(
        header.len(),
        |j: int|
            discord_markdown::padded(
                if j < cells.len() {
                    cells[j]
                } else {
                    Seq::empty()
                },
                discord_markdown::column_width(header, rows, j),
            ),
    );
    assert(text::joined(parts, " | "@) == discord_markdown::table_line(cells, header, rows));
    assert(shown(parts, cells, widths)) by {
        assert forall|j: int| 0 <= j < parts.len() implies pads(
            #[trigger] parts[j],
            if j < cells.len() {
                cells[j]
            } else {
                Seq::empty()
            },
            widths[j],
        ) by {
            assert(widths[j] == discord_markdown::column_width(header, rows, j));
        }
    }
    let lines = Seq::new(
        header.len(),
        |j: int|
            discord_markdown::repeated('-', discord_markdown::column_width(header, rows, j)),
    );
    assert(text::joined(lines, "-+-"@) == discord_markdown::rule_line(header, rows));
    assert(hyphens(lines, widths)) by {
        assert forall|j: int| 0 <= j < lines.len() implies (#[trigger] lines[j]).len() == widths[j]
            && forall|i: int| 0 <= i < widths[j] ==> #[trigger] lines[j][i] == '-' by {
            assert(widths[j] == discord_markdown::column_width(header, rows, j));
        }
    }
}

/// A table is drawn whole, between fences: the header, a rule, and every row in its place, each with
/// all its cells that stand under a column of the header, in columns that are as wide as their widest
/// cell. What follows the table is rendered as it would be by itself.
pub proof fn tables_are_drawn_whole(lines: Seq<Seq<char>>, i: int, e: int) -> (widths: Seq<nat>)
    requires
        is_table(lines, i, e),
    ensures
        ({
            let out = discord_markdown::discord_lines(lines, i, false);
            let header = discord_markdown::cells_of(lines[i]);
            &&& out.len() >= e - i + 2
            &&& out.skip(e - i + 2) == discord_markdown::discord_lines(lines, e, false)
            &&& out[0] == "```"@ && out[e - i + 1] == "```"@
            &&& widths.len() == header.len()
            &&& forall|j: int|
                0 <= j < header.len() ==> widest(#[trigger] widths[j], lines, i, e, j)
            &&& shows(out[1], header, widths)
            &&& rules(out[2], widths)
            &&& forall|k: int|
                i + 2 <= k < e ==> shows(
                    out[k - i + 1],
                    discord_markdown::cells_of(#[trigger] lines[k]),
                    widths,
                )
        }),
{
    lemma_fences(lines[i]);
    lemma_separator(lines[i + 1]);
    lemma_end_of_rows(lines, i + 2, e);
    let header = discord_markdown::cells_of(lines[i]);
    let rows = discord_markdown::rows_between(lines, i + 2, e);
    let block = discord_markdown::rendered_table(header, rows);
    let rest = discord_markdown::discord_lines(lines, e, false);
    let out = discord_markdown::discord_lines(lines, i, false);
    assert(out == block + rest);
    assert(block.len() == e - i + 2);
    assert(out.skip(e - i + 2) =~= rest);
    let widths = Seq::new(header.len(), |j: int| discord_markdown::column_width(header, rows, j));
    lemma_shows(header, header, rows, widths);
    assert forall|j: int| 0 <= j < header.len() implies widest(
        #[trigger] widths[j],
        lines,
        i,
        e,
        j,
    ) by {
        lemma_width(header, rows, j);
        let w = widths[j];
        assert forall|k: int|
            i + 2 <= k < e && j < discord_markdown::cells_of(
                #[trigger] lines[k],
            ).len() implies text::byte_len(discord_markdown::cells_of(lines[k])[j]) <= w by {
            assert(rows[k - i - 2] == discord_markdown::cells_of(lines[k]));
        }
        if w != text::byte_len(header[j]) {
            let k = choose|k: int|
                0 <= k < rows.len() && j < (#[trigger] rows[k]).len() && w == text::byte_len(
                    rows[k][j],
                );
            assert(rows[k] == discord_markdown::cells_of(lines[i + 2 + k]));
        }
    }
    assert forall|k: int| i + 2 <= k < e implies shows(
        out[k - i + 1],
        discord_markdown::cells_of(#[trigger] lines[k]),
        widths,
    ) by {
        assert(rows[k - i - 2] == discord_markdown::cells_of(lines[k]));
        assert(out[k - i + 1] == discord_markdown::table_line(rows[k - i - 2], header, rows));
        lemma_shows(rows[k - i - 2], header, rows, widths);
    }
    widths
}

proof fn lemma_padded_cell(
    before: Seq<char>,
    part: Seq<char>,
    cell: Seq<char>,
    width: nat,
    after: Seq<char>,
)
    requires
        pads(part, cell, width),
        cell.len() > 0 ==> text_laws::is_tight(cell) && !cell.contains('|'),
        before == Seq::<char>::empty() || before == seq![' '],
        after == Seq::<char>::empty() || after == seq![' '],
    ensures
        cell.len() > 0 ==> discord_markdown::cells_of(before + part + after) == seq![cell],
        cell.len() == 0 ==> discord_markdown::cells_of(before + part + after)
            == Seq::<Seq<char>>::empty(),
{
    let s = before + part + after;
    let spaces = part.skip(cell.len() as int) + after;
    assert(s =~= before + cell + spaces) by {
        assert(part.take(cell.len() as int) =~= cell);
    }
    assert(text::is_white(' '));
    assert(text_laws::all_white(before));
    assert(text_laws::all_white(spaces));
    assert(!s.contains('|')) by {
        if s.contains('|') {
            let k = choose|k: int| 0 <= k < s.len() && s[k] == '|';
            if before.len() <= k < before.len() + cell.len() {
                assert(cell[k - before.len()] == '|');
            } else if k >= before.len() + cell.len() {
                assert(spaces[k - before.len() - cell.len()] == ' ');
            }
        }
    }
    cells_stand_between_pipes(s, s);
    if cell.len() > 0 {
        text_laws::trimming_leaves_the_text(before, cell, spaces);
    } else {
        assert(text_laws::all_white(s)) by {
            assert forall|k: int| 0 <= k < s.len() implies text::is_white(#[trigger] s[k]) by {
                if k >= before.len() {
                    assert(s[k] == spaces[k - before.len()]);
                } else {
                    assert(s[k] == before[k]);
                }
            }
        }
        text_laws::trimming_white_space_leaves_nothing(s);
        assert(discord_markdown::cells_of(s) =~= Seq::<Seq<char>>::empty());
    }
}

proof fn lemma_shown_cells(
    parts: Seq<Seq<char>>,
    cells: Seq<Seq<char>>,
    widths: Seq<nat>,
    after: Seq<char>,
)
    requires
        shown(parts, cells, widths),
        after == Seq::<char>::empty() || after == seq![' '],
        forall|j: int|
            0 <= j < cells.len() ==> text_laws::is_tight(#[trigger] cells[j]) && !cells[j].contains(
                '|',
            ),
    ensures
        discord_markdown::cells_of(text::joined(parts, " | "@) + after) == cells.take(
            if parts.len() < cells.len() {
                parts.len() as int
            } else {
                cells.len() as int
            },
        ),
    decreases parts.len(),
{
    reveal_strlit(" | ");
    let none = Seq::<char>::empty();
    let n = parts.len() - 1;
    if parts.len() == 0 {
        assert(text::joined(parts, " | "@) + after =~= none + none + after);
        assert(pads(none, none, 0));
        lemma_padded_cell(none, none, none, 0, after);
        assert(cells.take(0) =~= Seq::<Seq<char>>::empty());
    } else {
        let cell = if n < cells.len() {
            cells[n]
        } else {
            Seq::empty()
        };
        let upto = if parts.len() < cells.len() {
            parts.len() as int
        } else {
            cells.len() as int
        };
        assert(pads(parts[n], cell, widths[n]));
        if n < cells.len() {
            assert(text_laws::is_tight(cells[n]));
        }
        if parts.len() == 1 {
            assert(text::joined(parts, " | "@) + after =~= none + parts[0] + after);
            lemma_padded_cell(none, parts[0], cell, widths[0], after);
            if cells.len() > 0 {
                assert(cells.take(1) =~= seq![cells[0]]);
            } else {
                assert(cells.take(0) =~= Seq::<Seq<char>>::empty());
            }
        } else {
            let front = parts.drop_last();
            let left = text::joined(front, " | "@) + seq![' '];
            let right = seq![' '] + parts[n] + after;
            assert(text::joined(parts, " | "@) + after =~= left + seq!['|'] + right);
            assert(shown(front, cells, widths)) by {
                assert forall|j: int| 0 <= j < front.len() implies pads(
                    #[trigger] front[j],
                    if j < cells.len() {
                        cells[j]
                    } else {
                        Seq::empty()
                    },
                    widths[j],
                ) by {
                    assert(front[j] == parts[j]);
                }
            }
            lemma_shown_cells(front, cells, widths, seq![' ']);
            lemma_padded_cell(seq![' '], parts[n], cell, widths[n], after);
            cells_stand_between_pipes(left, right);
            if n < cells.len() {
                assert(cells.take(n) + seq![cells[n]] =~= cells.take(n + 1));
            } else {
                assert(cells.take(cells.len() as int) + Seq::<Seq<char>>::empty() =~= cells.take(
                    cells.len() as int,
                ));
            }
        }
    }
}

/// No cell under a column of the header is lost: read back, the drawn header has the header's cells,
/// and every drawn row the cells of its line, as many as the header has.
pub proof fn no_cell_is_lost(lines: Seq<Seq<char>>, i: int, e: int)
    requires
        is_table(lines, i, e),
    ensures
        ({
            let out = discord_markdown::discord_lines(lines, i, false);
            let header = discord_markdown::cells_of(lines[i]);
            &&& discord_markdown::cells_of(out[1]) == header
            &&& forall|k: int|
                i + 2 <= k < e ==> {
                    let row = discord_markdown::cells_of(#[trigger] lines[k]);
                    &&& row.len() <= header.len() ==> discord_markdown::cells_of(out[k - i + 1])
                        == row
                    &&& row.len() > header.len() ==> discord_markdown::cells_of(out[k - i + 1])
                        == row.take(header.len() as int)
                }
        }),
{
    let widths = tables_are_drawn_whole(lines, i, e);
    let out = discord_markdown::discord_lines(lines, i, false);
    let header = discord_markdown::cells_of(lines[i]);
    lemma_line_cells(out[1], lines[i], widths);
    assert(header.take(header.len() as int) =~= header);
    assert forall|k: int| i + 2 <= k < e implies {
        let row = discord_markdown::cells_of(#[trigger] lines[k]);
        &&& row.len() <= header.len() ==> discord_markdown::cells_of(out[k - i + 1]) == row
        &&& row.len() > header.len() ==> discord_markdown::cells_of(out[k - i + 1]) == row.take(
            header.len() as int,
        )
    } by {
        let row = discord_markdown::cells_of(lines[k]);
        lemma_line_cells(out[k - i + 1], lines[k], widths);
        assert(row.take(row.len() as int) =~= row);
    }
}

proof fn lemma_line_cells(drawn: Seq<char>, line: Seq<char>, widths: Seq<nat>)
    requires
        shows(drawn, discord_markdown::cells_of(line), widths),
    ensures
        ({
            let cells = discord_markdown::cells_of(line);
            discord_markdown::cells_of(drawn) == cells.take(
                if widths.len() < cells.len() {
                    widths.len() as int
                } else {
                    cells.len() as int
                },
            )
        }),
{
    let cells = discord_markdown::cells_of(line);
    let parts = choose|parts: Seq<Seq<char>>| #[trigger]
        text::joined(parts, " | "@) == drawn && parts.len() == widths.len() && shown(
            parts,
            cells,
            widths,
        );
    assert forall|j: int| 0 <= j < cells.len() implies text_laws::is_tight(#[trigger] cells[j])
        && !cells[j].contains('|') by {
        cells_are_tight(line, j);
    }
    lemma_shown_cells(parts, cells, widths, Seq::empty());
    assert(drawn + Seq::<char>::empty() =~= drawn);
}

// ---------------------------------------------------------------- other lines

/// A fence is kept and opens or closes code; a line of code is kept whatever it holds; any other line
/// that begins no table only loses tags. Each line is rendered by itself, and the others follow.
pub proof fn lines_are_rendered_one_by_one(lines: Seq<Seq<char>>, i: int, in_code: bool)
    requires
        0 <= i < lines.len(),
    ensures
        ({
            let out = discord_markdown::discord_lines(lines, i, in_code);
            &&& fences(lines[i]) ==> out == seq![lines[i]] + discord_markdown::discord_lines(
                lines,
                i + 1,
                !in_code,
            )
            &&& !fences(lines[i]) && in_code ==> out == seq![lines[i]]
                + discord_markdown::discord_lines(lines, i + 1, true)
            &&& !fences(lines[i]) && !in_code && !(lines[i].contains('|') && i + 1 < lines.len()
                && parts_header(lines[i + 1])) ==> out == seq![
                discord_markdown::without_tags(lines[i], discord_markdown::dropped_tags()),
            ] + discord_markdown::discord_lines(lines, i + 1, false)
        }),
        discord_markdown::discord_lines(lines, lines.len() as int, in_code).len() == 0,
{
    lemma_fences(lines[i]);
    if i + 1 < lines.len() {
        lemma_separator(lines[i + 1]);
    }
}

/// The rendered text is the rendered lines of the text with line feeds between them.
pub proof fn texts_are_rendered_by_lines(s: Seq<char>)
    ensures
        discord_markdown::discord_markdown(s) == text::joined(
            discord_markdown::discord_lines(text::lines_of(s), 0, false),
            "\n"@,
        ),
{
}

/// A tag that Discord does not render.
pub open spec fn is_tag(tag: Seq<char>) -> bool {
    ||| tag == "<br>"@
    ||| tag == "<br/>"@
    ||| tag == "<br />"@
    ||| tag == "<hr>"@
    ||| tag == "<hr/>"@
    ||| tag == "<hr />"@
    ||| tag == "<p>"@
    ||| tag == "</p>"@
    ||| tag == "<div>"@
    ||| tag == "</div>"@
    ||| tag == "<span>"@
    ||| tag == "</span>"@
}

/// The text begins with '<', ends with '>', and holds neither anywhere else.
pub open spec fn is_bracketed(tag: Seq<char>) -> bool {
    &&& tag.len() >= 2
    &&& tag[0] == '<'
    &&& tag[tag.len() - 1] == '>'
    &&& forall|k: int| 0 < k < tag.len() ==> #[trigger] tag[k] != '<'
    &&& forall|k: int| 0 <= k < tag.len() - 1 ==> #[trigger] tag[k] != '>'
}

proof fn lemma_tags_bracketed(k: int)
    requires
        0 <= k < 12,
    ensures
        discord_markdown::dropped_tags().len() == 12,
        is_bracketed(discord_markdown::dropped_tags()[k]),
        is_tag(discord_markdown::dropped_tags()[k]),
{
    reveal_strlit("<br>");
    reveal_strlit("<br/>");
    reveal_strlit("<br />");
    reveal_strlit("<hr>");
    reveal_strlit("<hr/>");
    reveal_strlit("<hr />");
    reveal_strlit("<p>");
    reveal_strlit("</p>");
    reveal_strlit("<div>");
    reveal_strlit("</div>");
    reveal_strlit("<span>");
    reveal_strlit("</span>");
}

proof fn lemma_tag_is_dropped(tag: Seq<char>) -> (k: int)
    requires
        is_tag(tag),
    ensures
        0 <= k < 12,
        discord_markdown::dropped_tags()[k] == tag,
{
    let tags = discord_markdown::dropped_tags();
    if tag == tags[0] {
        0
    } else if tag == tags[1] {
        1
    } else if tag == tags[2] {
        2
    } else if tag == tags[3] {
        3
    } else if tag == tags[4] {
        4
    } else if tag == tags[5] {
        5
    } else if tag == tags[6] {
        6
    } else if tag == tags[7] {
        7
    } else if tag == tags[8] {
        8
    } else if tag == tags[9] {
        9
    } else if tag == tags[10] {
        10
    } else {
        11
    }
}

/// Where no tag begins, nothing is replaced.
pub(crate) proof fn lemma_clear(a: Seq<char>, rest: Seq<char>, tag: Seq<char>, with: Seq<char>)
    requires
        tag.len() > 0,
        forall|i: int| 0 <= i < a.len() ==> !#[trigger] text_laws::occurs(a + rest, tag, i),
    ensures
        text::replaced(a + rest, tag, with) == a + text::replaced(rest, tag, with),
{
    let s = a + rest;
    let n = a.len() as int;
    text_laws::the_first_occurrence_is_found(s, tag, 0);
    text_laws::the_first_occurrence_is_found(rest, tag, 0);
    assert forall|i: int| #[trigger] text_laws::occurs(s, tag, i) implies i >= n
        && text_laws::occurs(rest, tag, i - n) by {
        assert forall|k: int| 0 <= k < tag.len() implies rest[i - n + k] == #[trigger] tag[k] by {
            assert(s[i + k] == tag[k]);
        }
    }
    assert forall|i: int| #[trigger] text_laws::occurs(rest, tag, i) implies text_laws::occurs(
        s,
        tag,
        n + i,
    ) by {
        assert forall|k: int| 0 <= k < tag.len() implies s[n + i + k] == #[trigger] tag[k] by {
            assert(rest[i + k] == tag[k]);
        }
    }
    match text::find_from(rest, tag, 0) {
        Some(j) => {
            assert(text_laws::occurs(s, tag, n + j));
            let f = text::find_from(s, tag, 0)->0;
            assert(text_laws::occurs(rest, tag, f - n));
            assert(f == n + j);
            text_laws::occurrences_are_replaced_in_turn(s, tag, with, f);
            text_laws::occurrences_are_replaced_in_turn(rest, tag, with, j);
            let end = j + tag.len();
            let tail = rest.subrange(end, rest.len() as int);
            assert(s.subrange(f + tag.len(), s.len() as int) =~= tail);
            assert(s.subrange(0, f) =~= a + rest.subrange(0, j));
            let done = text::replaced(tail, tag, with);
            assert(a + rest.subrange(0, j) + with + done =~= a + (rest.subrange(0, j) + with + done));
        },
        None => {
            assert forall|j: int| !#[trigger] text_laws::occurs(rest, tag, j) by {}
            assert forall|j: int| !#[trigger] text_laws::occurs(s, tag, j) by {}
            text_laws::without_occurrence_nothing_is_replaced(s, tag, with);
            text_laws::without_occurrence_nothing_is_replaced(rest, tag, with);
        },
    }
}

proof fn lemma_before_tags(a: Seq<char>, rest: Seq<char>, tags: Seq<Seq<char>>)
    requires
        !a.contains('<'),
        forall|k: int| 0 <= k < tags.len() ==> is_bracketed(#[trigger] tags[k]),
    ensures
        discord_markdown::without_tags(a + rest, tags) == a + discord_markdown::without_tags(
            rest,
            tags,
        ),
    decreases tags.len(),
{
    if tags.len() > 0 {
        let front = tags.drop_last();
        assert forall|k: int| 0 <= k < front.len() implies is_bracketed(#[trigger] front[k]) by {
            assert(front[k] == tags[k]);
        }
        lemma_before_tags(a, rest, front);
        let tag = tags[tags.len() - 1];
        let x = discord_markdown::without_tags(rest, front);
        assert forall|i: int| 0 <= i < a.len() implies !#[trigger] text_laws::occurs(
            a + x,
            tag,
            i,
        ) by {
            if text_laws::occurs(a + x, tag, i) {
                assert((a + x)[i + 0] == tag[0]);
                assert(a[i] == '<');
            }
        }
        lemma_clear(a, x, tag, Seq::empty());
    }
}

proof fn lemma_other_tag(tag: Seq<char>, x: Seq<char>, other: Seq<char>)
    requires
        is_bracketed(tag),
        is_bracketed(other),
    ensures
        tag != other ==> text::replaced(tag + x, other, Seq::empty()) == tag + text::replaced(
            x,
            other,
            Seq::empty(),
        ),
        tag == other ==> text::replaced(tag + x, other, Seq::empty()) == text::replaced(
            x,
            other,
            Seq::empty(),
        ),
{
    let s = tag + x;
    let none = Seq::<char>::empty();
    if tag == other {
        assert(text_laws::occurs(s, other, 0));
        text_laws::occurrences_are_replaced_in_turn(s, other, none, 0);
        assert(s.subrange(0int + other.len(), s.len() as int) =~= x);
        let done = text::replaced(x, other, none);
        assert(s.subrange(0, 0) + none + done =~= done);
    } else {
        assert forall|i: int| 0 <= i < tag.len() implies !#[trigger] text_laws::occurs(
            s,
            other,
            i,
        ) by {
            if text_laws::occurs(s, other, i) {
                assert(s[i + 0] == other[0]);
                assert(tag[i] == '<');
                assert(i == 0);
                if other.len() <= tag.len() {
                    let k = other.len() - 1;
                    assert(s[0 + k] == other[k]);
                    assert(tag[k] == '>');
                    assert(other.len() == tag.len());
                    assert forall|m: int| 0 <= m < tag.len() implies tag[m] == other[m] by {
                        assert(s[0 + m] == other[m]);
                    }
                    assert(tag =~= other);
                } else {
                    let k = tag.len() - 1;
                    assert(s[0 + k] == other[k]);
                    assert(other[k] == '>');
                }
            }
        }
        lemma_clear(tag, x, other, none);
    }
}

proof fn lemma_tag_dropped(tag: Seq<char>, rest: Seq<char>, tags: Seq<Seq<char>>)
    requires
        is_bracketed(tag),
        forall|k: int| 0 <= k < tags.len() ==> is_bracketed(#[trigger] tags[k]),
    ensures
        tags.contains(tag) ==> discord_markdown::without_tags(tag + rest, tags)
            == discord_markdown::without_tags(rest, tags),
        !tags.contains(tag) ==> discord_markdown::without_tags(tag + rest, tags) == tag
            + discord_markdown::without_tags(rest, tags),
    decreases tags.len(),
{
    if tags.len() > 0 {
        let front = tags.drop_last();
        let n = tags.len() - 1;
        assert forall|k: int| 0 <= k < front.len() implies is_bracketed(#[trigger] front[k]) by {
            assert(front[k] == tags[k]);
        }
        lemma_tag_dropped(tag, rest, front);
        let x = discord_markdown::without_tags(rest, front);
        assert(is_bracketed(tags[n]));
        lemma_other_tag(tag, x, tags[n]);
        if front.contains(tag) {
            let k = choose|k: int| 0 <= k < front.len() && front[k] == tag;
            assert(tags[k] == tag);
        } else if tags.contains(tag) {
            let k = choose|k: int| 0 <= k < tags.len() && tags[k] == tag;
            if k < n {
                assert(front[k] == tag);
            }
        } else {
            assert(tags[n] != tag);
        }
    }
}

proof fn lemma_untagged(line: Seq<char>, tags: Seq<Seq<char>>)
    requires
        forall|k: int, i: int|
            0 <= k < tags.len() ==> !#[trigger] text_laws::occurs(line, tags[k], i),
    ensures
        discord_markdown::without_tags(line, tags) == line,
    decreases tags.len(),
{
    if tags.len() > 0 {
        let front = tags.drop_last();
        assert forall|k: int, i: int| 0 <= k < front.len() implies !#[trigger] text_laws::occurs(
            line,
            front[k],
            i,
        ) by {
            assert(front[k] == tags[k]);
        }
        lemma_untagged(line, front);
        let tag = tags[tags.len() - 1];
        assert forall|i: int| !#[trigger] text_laws::occurs(line, tag, i) by {
            assert(!text_laws::occurs(line, tags[tags.len() - 1], i));
        }
        text_laws::without_occurrence_nothing_is_replaced(line, tag, Seq::empty());
    }
}

/// What stands before the first '<' is kept, a tag behind it is dropped, and what follows the tag is
/// rendered as it would be by itself. A line without tags is kept.
pub proof fn tags_are_dropped(a: Seq<char>, tag: Seq<char>, rest: Seq<char>)
    requires
        !a.contains('<'),
        is_tag(tag),
    ensures
        ({
            let all = discord_markdown::dropped_tags();
            &&& discord_markdown::without_tags(a + tag + rest, all) == a
                + discord_markdown::without_tags(rest, all)
            &&& discord_markdown::without_tags(a + rest, all) == a
                + discord_markdown::without_tags(rest, all)
            &&& (forall|t: Seq<char>, i: int| is_tag(t) ==> !#[trigger] text_laws::occurs(rest, t, i))
                ==> discord_markdown::without_tags(rest, all) == rest
        }),
{
    let all = discord_markdown::dropped_tags();
    assert forall|k: int| 0 <= k < all.len() implies is_bracketed(#[trigger] all[k]) && is_tag(
        all[k],
    ) by {
        lemma_tags_bracketed(k);
    }
    let k = lemma_tag_is_dropped(tag);
    assert(all[k] == tag);
    lemma_before_tags(a, tag + rest, all);
    assert(a + (tag + rest) =~= a + tag + rest);
    lemma_before_tags(a, rest, all);
    lemma_tag_dropped(tag, rest, all);
    if forall|t: Seq<char>, i: int| is_tag(t) ==> !#[trigger] text_laws::occurs(rest, t, i) {
        assert forall|k: int, i: int| 0 <= k < all.len() implies !#[trigger] text_laws::occurs(
            rest,
            all[k],
            i,
        ) by {
            assert(is_tag(all[k]));
        }
        lemma_untagged(rest, all);
    }
}

/// The tags are dropped one kind after the other, shorter spellings of the breaks first.
pub proof fn tags_go_one_kind_after_the_other(
    line: Seq<char>,
    tags: Seq<Seq<char>>,
    tag: Seq<char>,
)
    ensures
        discord_markdown::without_tags(line, Seq::empty()) == line,
        discord_markdown::without_tags(line, tags.push(tag)) == text::replaced(
            discord_markdown::without_tags(line, tags),
            tag,
            Seq::empty(),
        ),
        ({
            let all = discord_markdown::dropped_tags();
            &&& all.len() == 12
            &&& all[0] == "<br>"@ && all[1] == "<br/>"@ && all[2] == "<br />"@
            &&& all[3] == "<hr>"@ && all[4] == "<hr/>"@ && all[5] == "<hr />"@
            &&& all[6] == "<p>"@ && all[7] == "</p>"@
            &&& all[8] == "<div>"@ && all[9] == "</div>"@
            &&& all[10] == "<span>"@ && all[11] == "</span>"@
        }),
{
    assert(tags.push(tag).drop_last() =~= tags);
}

} // verus!
