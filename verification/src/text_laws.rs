//! What holds of the operations on texts, in terms of characters and positions alone.

use crate::text;
use vstd::prelude::*;

verus! {

// ---------------------------------------------------------------- white space

/// White space is what Unicode counts as such: the control characters from tab to carriage return,
/// the space, the next line, and the spaces and separators of other scripts.
pub proof fn white_space_is_that_of_unicode(c: char)
    ensures
        text::is_white(c) <==> (c == '\t' || c == '\n' || c == '\u{b}' || c == '\u{c}' || c == '\r'
            || c == ' ' || c == '\u{85}' || c == '\u{a0}' || c == '\u{1680}' || ('\u{2000}' <= c
            && c <= '\u{200a}') || c == '\u{2028}' || c == '\u{2029}' || c == '\u{202f}' || c
            == '\u{205f}' || c == '\u{3000}'),
{
}

/// All characters are white space.
pub open spec fn all_white(s: Seq<char>) -> bool {
    forall|i: int| 0 <= i < s.len() ==> text::is_white(#[trigger] s[i])
}

/// The text begins and ends with a character that is no white space.
pub open spec fn is_tight(s: Seq<char>) -> bool {
    s.len() > 0 && !text::is_white(s[0]) && !text::is_white(s[s.len() - 1])
}

/// White space before a text is passed over.
pub proof fn leading_white_space_is_dropped(before: Seq<char>, s: Seq<char>)
    requires
        all_white(before),
        s.len() > 0 ==> !text::is_white(s[0]),
    ensures
        text::trimmed_start(before + s) == s,
    decreases before.len(),
{
    if before.len() == 0 {
        assert(before + s =~= s);
    } else {
        assert((before + s).drop_first() =~= before.drop_first() + s);
        assert(text::is_white(before[0]));
        assert forall|i: int| 0 <= i < before.drop_first().len() implies text::is_white(
            #[trigger] before.drop_first()[i],
        ) by {
            assert(text::is_white(before[i + 1]));
        }
        leading_white_space_is_dropped(before.drop_first(), s);
    }
}

proof fn lemma_trailing(s: Seq<char>, after: Seq<char>)
    requires
        all_white(after),
        s.len() > 0 ==> !text::is_white(s[s.len() - 1]),
    ensures
        text::trimmed_end(s + after) == s,
    decreases after.len(),
{
    if after.len() == 0 {
        assert(s + after =~= s);
    } else {
        assert((s + after).drop_last() =~= s + after.drop_last());
        assert(text::is_white(after[after.len() - 1]));
        assert forall|i: int| 0 <= i < after.drop_last().len() implies text::is_white(
            #[trigger] after.drop_last()[i],
        ) by {
            assert(text::is_white(after[i]));
        }
        lemma_trailing(s, after.drop_last());
    }
}

/// Trimming takes the white space away around a text, and nothing of the text.
pub proof fn trimming_leaves_the_text(before: Seq<char>, s: Seq<char>, after: Seq<char>)
    requires
        all_white(before),
        all_white(after),
        is_tight(s),
    ensures
        text::trimmed(before + s + after) == s,
        text::trimmed(s) == s,
        text::trimmed_start(before + s + after) == s + after,
{
    assert(before + s + after =~= before + (s + after));
    leading_white_space_is_dropped(before, s + after);
    lemma_trailing(s, after);
    let none = Seq::<char>::empty();
    leading_white_space_is_dropped(none, s);
    assert(none + s =~= s);
    lemma_trailing(s, none);
    assert(s + none =~= s);
}

/// Of white space alone, trimming leaves nothing.
pub proof fn trimming_white_space_leaves_nothing(s: Seq<char>)
    requires
        all_white(s),
    ensures
        text::trimmed(s) == Seq::<char>::empty(),
        text::trimmed_start(s) == Seq::<char>::empty(),
{
    let none = Seq::<char>::empty();
    leading_white_space_is_dropped(s, none);
    assert(s + none =~= s);
}

/// Every text is white space, a tight text or nothing, and white space; trimming gives the middle.
pub proof fn trimmed_text_stands_in_the_text(s: Seq<char>) -> (p: (int, int))
    ensures
        0 <= p.0 <= p.1 <= s.len(),
        text::trimmed(s) == s.subrange(p.0, p.1),
        all_white(s.subrange(0, p.0)),
        all_white(s.subrange(p.1, s.len() as int)),
        p.0 < p.1 ==> is_tight(s.subrange(p.0, p.1)),
        text::trimmed(s).len() == 0 <==> all_white(s),
{
    let i = lemma_start(s, 0);
    let t = s.skip(i);
    let n = lemma_end(t, t.len() as int);
    assert(s.skip(0) =~= s);
    assert(t.take(t.len() as int) =~= t);
    assert(t.take(n) =~= s.subrange(i, i + n));
    assert forall|k: int| 0 <= k < s.subrange(i + n, s.len() as int).len() implies text::is_white(
        #[trigger] s.subrange(i + n, s.len() as int)[k],
    ) by {
        assert(text::is_white(t[n + k]));
    }
    assert forall|k: int| 0 <= k < s.subrange(0, i).len() implies text::is_white(
        #[trigger] s.subrange(0, i)[k],
    ) by {
        assert(text::is_white(s[k]));
    }
    if n > 0 {
        assert(s[i] == t[0]);
        assert(!text::is_white(s[i]));
    } else {
        assert forall|k: int| 0 <= k < s.len() implies text::is_white(#[trigger] s[k]) by {
            if k >= i {
                assert(s.subrange(i + n, s.len() as int)[k - i] == s[k]);
            }
        }
    }
    (i, i + n)
}

proof fn lemma_start(s: Seq<char>, from: int) -> (i: int)
    requires
        0 <= from <= s.len(),
        forall|k: int| 0 <= k < from ==> text::is_white(#[trigger] s[k]),
    ensures
        from <= i <= s.len(),
        text::trimmed_start(s.skip(from)) == s.skip(i),
        forall|k: int| 0 <= k < i ==> text::is_white(#[trigger] s[k]),
        i < s.len() ==> !text::is_white(s[i]),
    decreases s.len() - from,
{
    if from < s.len() && text::is_white(s[from]) {
        assert(s.skip(from).drop_first() =~= s.skip(from + 1));
        lemma_start(s, from + 1)
    } else {
        from
    }
}

proof fn lemma_end(s: Seq<char>, to: int) -> (i: int)
    requires
        0 <= to <= s.len(),
        forall|k: int| to <= k < s.len() ==> text::is_white(#[trigger] s[k]),
    ensures
        0 <= i <= to,
        text::trimmed_end(s.take(to)) == s.take(i),
        forall|k: int| i <= k < s.len() ==> text::is_white(#[trigger] s[k]),
        i > 0 ==> !text::is_white(s[i - 1]),
    decreases to,
{
    if to > 0 && text::is_white(s[to - 1]) {
        assert(s.take(to).drop_last() =~= s.take(to - 1));
        lemma_end(s, to - 1)
    } else {
        to
    }
}

// ---------------------------------------------------------------- searching and replacing

/// The characters of `pat` stand in `s` from position `i` on.
pub open spec fn occurs(s: Seq<char>, pat: Seq<char>, i: int) -> bool {
    &&& 0 <= i
    &&& i + pat.len() <= s.len()
    &&& forall|k: int| 0 <= k < pat.len() ==> s[i + k] == #[trigger] pat[k]
}

/// A text stands at a position if its characters do.
pub proof fn standing_is_by_character(s: Seq<char>, pat: Seq<char>, i: int)
    ensures
        text::stands_at(s, pat, i) == occurs(s, pat, i),
        text::has_prefix(s, pat) == occurs(s, pat, 0),
{
    lemma_stands(s, pat, i);
    lemma_stands(s, pat, 0);
}

proof fn lemma_stands(s: Seq<char>, pat: Seq<char>, i: int)
    ensures
        text::stands_at(s, pat, i) == occurs(s, pat, i),
{
    if text::stands_at(s, pat, i) {
        assert forall|k: int| 0 <= k < pat.len() implies s[i + k] == #[trigger] pat[k] by {
            assert(s.subrange(i, i + pat.len())[k] == pat[k]);
        }
    }
    if occurs(s, pat, i) {
        assert(s.subrange(i, i + pat.len()) =~= pat);
    }
}

/// What is searched for is found at the first position where it stands, and only there.
pub proof fn the_first_occurrence_is_found(s: Seq<char>, pat: Seq<char>, from: int)
    requires
        0 <= from,
    ensures
        match text::find_from(s, pat, from) {
            Some(i) => from <= i && occurs(s, pat, i) && forall|j: int|
                from <= j < i ==> !#[trigger] occurs(s, pat, j),
            None => forall|j: int| from <= j ==> !#[trigger] occurs(s, pat, j),
        },
{
    text::lemma_find_from(s, pat, from);
    assert forall|j: int| text::stands_at(s, pat, j) == #[trigger] occurs(s, pat, j) by {
        lemma_stands(s, pat, j);
    }
}

/// The last occurrence of a character is found.
pub proof fn the_last_character_is_found(s: Seq<char>, c: char)
    ensures
        match text::rfind(s, c) {
            Some(i) => 0 <= i < s.len() && s[i] == c && forall|j: int|
                i < j < s.len() ==> #[trigger] s[j] != c,
            None => forall|j: int| 0 <= j < s.len() ==> #[trigger] s[j] != c,
        },
    decreases s.len(),
{
    if s.len() > 0 && s.last() != c {
        let front = s.drop_last();
        the_last_character_is_found(front, c);
        assert forall|j: int| 0 <= j < front.len() implies front[j] == #[trigger] s[j] by {}
    }
}

/// What does not occur is not replaced.
pub proof fn without_occurrence_nothing_is_replaced(
    s: Seq<char>,
    pat: Seq<char>,
    with: Seq<char>,
)
    requires
        forall|j: int| !#[trigger] occurs(s, pat, j),
    ensures
        text::replaced(s, pat, with) == s,
{
    the_first_occurrence_is_found(s, pat, 0);
}

/// The first occurrence is replaced, what stands before it is kept, and so on behind it.
pub proof fn occurrences_are_replaced_in_turn(
    s: Seq<char>,
    pat: Seq<char>,
    with: Seq<char>,
    i: int,
)
    requires
        pat.len() > 0,
        occurs(s, pat, i),
        forall|j: int| 0 <= j < i ==> !#[trigger] occurs(s, pat, j),
    ensures
        text::replaced(s, pat, with) == s.subrange(0, i) + with + text::replaced(
            s.subrange(i + pat.len(), s.len() as int),
            pat,
            with,
        ),
{
    the_first_occurrence_is_found(s, pat, 0);
    assert(s.take(i) =~= s.subrange(0, i));
    assert(s.skip(i + pat.len()) =~= s.subrange(i + pat.len(), s.len() as int));
}

// ---------------------------------------------------------------- joining and splitting

/// Joined parts stand one after the other with the separator between: nothing for no part, the part
/// itself for one, and one more part comes behind one more separator.
pub proof fn joining_is_part_by_part(parts: Seq<Seq<char>>, sep: Seq<char>, last: Seq<char>)
    ensures
        text::joined(Seq::empty(), sep) == Seq::<char>::empty(),
        text::joined(seq![last], sep) == last,
        parts.len() > 0 ==> text::joined(parts.push(last), sep) == text::joined(parts, sep) + sep
            + last,
{
    if parts.len() > 0 {
        assert(parts.push(last).drop_last() =~= parts);
    }
}

/// A character is found at the first position where it stands.
pub proof fn the_first_character_is_found(s: Seq<char>, c: char)
    ensures
        match text::find_from(s, seq![c], 0) {
            Some(i) => 0 <= i < s.len() && s[i] == c && forall|j: int|
                0 <= j < i ==> #[trigger] s[j] != c,
            None => !s.contains(c),
        },
{
    text::lemma_find_from(s, seq![c], 0);
    match text::find_from(s, seq![c], 0) {
        Some(i) => {
            assert(s.subrange(i, i + 1)[0] == s[i]);
            assert(seq![c][0] == c);
            assert forall|j: int| 0 <= j < i implies #[trigger] s[j] != c by {
                if s[j] == c {
                    assert(s.subrange(j, j + 1) =~= seq![c]);
                    assert(text::stands_at(s, seq![c], j));
                }
            }
        },
        None => {
            if s.contains(c) {
                let j = choose|j: int| 0 <= j < s.len() && s[j] == c;
                assert(s.subrange(j, j + 1) =~= seq![c]);
                assert(text::stands_at(s, seq![c], j));
            }
        },
    }
}

proof fn lemma_piece_found(piece: Seq<char>, rest: Seq<char>, c: char)
    requires
        !piece.contains(c),
    ensures
        text::find_from(piece, seq![c], 0) is None,
        text::find_from(piece + seq![c] + rest, seq![c], 0) == Some(piece.len() as int),
        (piece + seq![c] + rest).take(piece.len() as int) == piece,
        (piece + seq![c] + rest).skip(piece.len() as int + 1) == rest,
{
    let s = piece + seq![c] + rest;
    let n = piece.len() as int;
    the_first_character_is_found(piece, c);
    the_first_character_is_found(s, c);
    assert(s[n] == c);
    assert(s.contains(c));
    let i = text::find_from(s, seq![c], 0)->0;
    if i < n {
        assert(piece[i] == c);
    }
    assert(s.take(n) =~= piece);
    assert(s.skip(n + 1) =~= rest);
}

/// A text without the separator is one piece; what stands before a separator is a piece, and the
/// rest is split in turn.
pub proof fn splitting_is_piece_by_piece(piece: Seq<char>, rest: Seq<char>, c: char)
    requires
        !piece.contains(c),
    ensures
        text::split_on(piece, c) == seq![piece],
        text::split_on(piece + seq![c] + rest, c) == seq![piece] + text::split_on(rest, c),
{
    lemma_piece_found(piece, rest, c);
}

/// The line without the carriage return that may stand at its end.
pub open spec fn without_return(line: Seq<char>) -> Seq<char> {
    if line.len() > 0 && line[line.len() - 1] == '\r' {
        line.subrange(0, line.len() - 1)
    } else {
        line
    }
}

/// A text without line feeds is one line, or none if it is empty; what stands before a line feed is
/// a line, less a carriage return, and the rest follows in turn.
pub proof fn lines_follow_one_another(line: Seq<char>, rest: Seq<char>)
    requires
        !line.contains('\n'),
    ensures
        text::lines_of(Seq::empty()) == Seq::<Seq<char>>::empty(),
        line.len() > 0 ==> text::lines_of(line) == seq![line],
        text::lines_of(line + seq!['\n'] + rest) == seq![without_return(line)] + text::lines_of(
            rest,
        ),
{
    let n = line.len() as int;
    lemma_piece_found(line, rest, '\n');
    if n > 0 {
        assert(line.drop_last() =~= line.subrange(0, n - 1));
    }
}

/// No character is white space.
pub open spec fn no_white(s: Seq<char>) -> bool {
    forall|i: int| 0 <= i < s.len() ==> !text::is_white(#[trigger] s[i])
}

proof fn lemma_word_len(w: Seq<char>, rest: Seq<char>)
    requires
        no_white(w),
        rest.len() > 0 ==> text::is_white(rest[0]),
    ensures
        text::word_len(w + rest) == w.len(),
    decreases w.len(),
{
    if w.len() == 0 {
        assert(w + rest =~= rest);
    } else {
        assert(!text::is_white(w[0]));
        assert((w + rest).drop_first() =~= w.drop_first() + rest);
        assert forall|i: int| 0 <= i < w.drop_first().len() implies !text::is_white(
            #[trigger] w.drop_first()[i],
        ) by {
            assert(!text::is_white(w[i + 1]));
        }
        lemma_word_len(w.drop_first(), rest);
    }
}

proof fn lemma_words_skip(before: Seq<char>, s: Seq<char>)
    requires
        all_white(before),
    ensures
        text::words_of(before + s) == text::words_of(s),
    decreases before.len(),
{
    if before.len() == 0 {
        assert(before + s =~= s);
    } else {
        assert(text::is_white(before[0]));
        assert((before + s).drop_first() =~= before.drop_first() + s);
        assert forall|i: int| 0 <= i < before.drop_first().len() implies text::is_white(
            #[trigger] before.drop_first()[i],
        ) by {
            assert(text::is_white(before[i + 1]));
        }
        lemma_words_skip(before.drop_first(), s);
    }
}

/// The words of a text stand between its white space, all of them and in order: white space alone
/// has none, and a word that white space or the end follows comes before the words of the rest.
pub proof fn words_follow_one_another(before: Seq<char>, word: Seq<char>, rest: Seq<char>)
    requires
        all_white(before),
        no_white(word),
        word.len() > 0,
        rest.len() > 0 ==> text::is_white(rest[0]),
    ensures
        text::words_of(before) == Seq::<Seq<char>>::empty(),
        text::words_of(before + word + rest) == seq![word] + text::words_of(rest),
{
    let none = Seq::<char>::empty();
    lemma_words_skip(before, none);
    assert(before + none =~= before);
    assert(before + word + rest =~= before + (word + rest));
    lemma_words_skip(before, word + rest);
    lemma_word_len(word, rest);
    let s = word + rest;
    assert(!text::is_white(word[0]));
    assert(s[0] == word[0]);
    assert(s.take(word.len() as int) =~= word);
    assert(s.skip(word.len() as int) =~= rest);
}

// ---------------------------------------------------------------- lists

/// Lists of texts are taken item by item.
pub proof fn lists_are_taken_item_by_item(a: Seq<String>, b: Seq<Vec<char>>, o: Option<String>)
    ensures
        text::strings(a).len() == a.len(),
        forall|i: int| 0 <= i < a.len() ==> #[trigger] text::strings(a)[i] == a[i]@,
        text::texts(b).len() == b.len(),
        forall|i: int| 0 <= i < b.len() ==> #[trigger] text::texts(b)[i] == b[i]@,
        o matches Some(s) ==> text::opt_text(o) == Some(s@),
        o is None ==> text::opt_text(o) is None,
{
}

// ---------------------------------------------------------------- bytes

/// What fits into a number of bytes is the longest beginning that takes no more, in UTF-8.
pub proof fn what_fits_is_the_longest_beginning(s: Seq<char>, limit: nat)
    ensures
        ({
            let n = text::within_bytes(s, limit).len() as int;
            &&& n <= s.len()
            &&& text::within_bytes(s, limit) == s.subrange(0, n)
            &&& vstd::utf8::encode_utf8(s.subrange(0, n)).len() <= limit
            &&& n < s.len() ==> vstd::utf8::encode_utf8(s.subrange(0, n + 1)).len() > limit
        }),
    decreases s.len(),
{
    let n = text::within_bytes(s, limit).len() as int;
    if text::byte_len(s) <= limit || s.len() == 0 {
        assert(s.subrange(0, n) =~= s);
        text::byte_len_is_utf8_len(s);
    } else {
        let front = s.drop_last();
        what_fits_is_the_longest_beginning(front, limit);
        assert(front.subrange(0, n) =~= s.subrange(0, n));
        if n < front.len() {
            assert(front.subrange(0, n + 1) =~= s.subrange(0, n + 1));
        } else {
            assert(s.subrange(0, n + 1) =~= s);
            text::byte_len_is_utf8_len(s);
        }
    }
}

/// A cut falls between two characters if the UTF-8 of some beginning of the text ends there.
pub proof fn cuts_fall_between_characters(s: Seq<char>, b: nat)
    ensures
        text::on_boundary(s, b) <==> exists|k: int|
            0 <= k <= s.len() && #[trigger] vstd::utf8::encode_utf8(s.take(k)).len() == b,
{
    assert forall|k: int| 0 <= k <= s.len() implies #[trigger] text::byte_len(s.take(k))
        == vstd::utf8::encode_utf8(s.take(k)).len() by {
        text::byte_len_is_utf8_len(s.take(k));
    }
    assert forall|k: int| 0 <= k <= s.len() implies text::byte_len(s.take(k))
        == #[trigger] vstd::utf8::encode_utf8(s.take(k)).len() by {
        text::byte_len_is_utf8_len(s.take(k));
    }
}

// ---------------------------------------------------------------- numbers

/// The digit character of a number below ten.
pub open spec fn figure(d: nat) -> char {
    seq!['0', '1', '2', '3', '4', '5', '6', '7', '8', '9'][d as int]
}

/// A number is written digit by digit, the last digit last and without leading zeros.
pub proof fn numbers_are_written_digit_by_digit(n: nat, d: nat)
    requires
        d < 10,
    ensures
        text::decimal(d) == seq![figure(d)],
        n > 0 ==> text::decimal(n * 10 + d) == text::decimal(n).push(figure(d)),
{
    assert((n * 10 + d) / 10 == n) by (nonlinear_arith)
        requires
            d < 10,
    ;
    assert((n * 10 + d) % 10 == d) by (nonlinear_arith)
        requires
            d < 10,
    ;
}

proof fn lemma_decimal(n: nat)
    ensures
        text::decimal(n).len() > 0,
        forall|i: int|
            0 <= i < text::decimal(n).len() ==> '0' <= #[trigger] text::decimal(n)[i] <= '9',
        text::digits_value(text::decimal(n)) == n,
    decreases n,
{
    if n < 10 {
        reveal_with_fuel(text::digits_value, 2);
        assert(text::decimal(n).drop_last() =~= Seq::<char>::empty());
    } else {
        lemma_decimal(n / 10);
        assert(text::decimal(n).drop_last() =~= text::decimal(n / 10));
    }
}

/// A written number is read back, with and without a plus sign, if it has 64 bits.
pub proof fn written_numbers_are_read_back(n: nat)
    ensures
        n <= u64::MAX ==> text::parsed_number(text::decimal(n)) == Some(n as u64),
        n <= u64::MAX ==> text::parsed_number(seq!['+'] + text::decimal(n)) == Some(n as u64),
        n > u64::MAX ==> text::parsed_number(text::decimal(n)) is None,
{
    lemma_decimal(n);
    let s = text::decimal(n);
    assert('0' <= s[0]);
    assert((seq!['+'] + s).drop_first() =~= s);
}

/// A text that holds anything but digits, behind a plus sign at most, is no number.
pub proof fn other_texts_are_no_numbers(s: Seq<char>, i: int)
    ensures
        text::parsed_number(Seq::empty()) is None,
        text::parsed_number(seq!['+']) is None,
        0 < i < s.len() && !('0' <= s[i] <= '9') ==> text::parsed_number(s) is None,
        s.len() > 0 && s[0] != '+' && !('0' <= s[0] <= '9') ==> text::parsed_number(s) is None,
{
    let d = text::unsigned_part(s);
    if 0 < i < s.len() && !('0' <= s[i] <= '9') {
        if s[0] == '+' {
            assert(d[i - 1] == s[i]);
            assert(!text::is_digit(d[i - 1]));
        } else {
            assert(!text::is_digit(d[i]));
        }
    }
    if s.len() > 0 && s[0] != '+' && !('0' <= s[0] <= '9') {
        assert(!text::is_digit(d[0]));
    }
    assert(seq!['+'].drop_first() =~= Seq::<char>::empty());
}

proof fn lemma_leading_zero(s: Seq<char>)
    ensures
        text::digits_value(seq!['0'] + s) == text::digits_value(s),
    decreases s.len(),
{
    let t = seq!['0'] + s;
    if s.len() == 0 {
        assert(t.drop_last() =~= Seq::<char>::empty());
        reveal_with_fuel(text::digits_value, 2);
    } else {
        assert(t.drop_last() =~= seq!['0'] + s.drop_last());
        assert(t.last() == s.last());
        lemma_leading_zero(s.drop_last());
    }
}

/// Leading zeros change nothing of a number.
pub proof fn leading_zeros_change_nothing(s: Seq<char>)
    requires
        s.len() > 0,
        '0' <= s[0] <= '9',
    ensures
        text::parsed_number(seq!['0'] + s) == text::parsed_number(s),
{
    let t = seq!['0'] + s;
    lemma_leading_zero(s);
    if forall|i: int| 0 <= i < s.len() ==> text::is_digit(#[trigger] s[i]) {
        assert forall|i: int| 0 <= i < t.len() implies text::is_digit(#[trigger] t[i]) by {
            if i > 0 {
                assert(t[i] == s[i - 1]);
            }
        }
    } else {
        let i = choose|i: int| 0 <= i < s.len() && !text::is_digit(#[trigger] s[i]);
        assert(!text::is_digit(t[i + 1]));
    }
}

} // verus!
