//! Text as sequences of characters: searching, replacing, splitting, trimming and numbers.

use vstd::prelude::*;
use vstd::slice::{slice_subrange, slice_to_vec};

verus! {

/// `String::push` appends one character to the end of the string.
pub assume_specification[ String::push ](s: &mut String, c: char)
    ensures
        final(s)@ == old(s)@.push(c),
;

/// The characters of a string.
pub fn chars_of(s: &str) -> (r: Vec<char>)
    ensures
        r@ == s@,
{
    let mut out: Vec<char> = Vec::new();
    for c in it: s.chars()
        invariant
            out@ == s@.take(it.index()),
            it.seq() == s@,
    {
        out.push(c);
    }
    out
}

/// The string made of the given characters.
pub fn string_of(chars: &[char]) -> (r: String)
    ensures
        r@ == chars@,
{
    let mut out: String = String::new();
    let mut i: usize = 0;
    while i < chars.len()
        invariant
            i <= chars@.len(),
            out@ == chars@.take(i as int),
        decreases chars@.len() - i,
    {
        out.push(chars[i]);
        i += 1;
        assert(chars@.take(i as int) =~= chars@.take(i - 1).push(chars@[i - 1]));
    }
    assert(chars@.take(chars@.len() as int) =~= chars@);
    out
}

/// Appends characters.
pub fn extend(out: &mut Vec<char>, more: &[char])
    ensures
        final(out)@ == old(out)@ + more@,
{
    let mut i: usize = 0;
    while i < more.len()
        invariant
            i <= more@.len(),
            out@ == old(out)@ + more@.take(i as int),
        decreases more@.len() - i,
    {
        out.push(more[i]);
        i += 1;
        assert(more@.take(i as int) =~= more@.take(i - 1).push(more@[i - 1]));
    }
    assert(more@.take(more@.len() as int) =~= more@);
}

/// Appends the characters of a string.
pub fn extend_str(out: &mut Vec<char>, more: &str)
    ensures
        final(out)@ == old(out)@ + more@,
{
    let chars = chars_of(more);
    extend(out, chars.as_slice());
}

/// Whether two character slices hold the same text.
pub fn same_chars(a: &[char], b: &[char]) -> (r: bool)
    ensures
        r == (a@ == b@),
{
    if a.len() != b.len() {
        return false;
    }
    let mut i: usize = 0;
    while i < a.len()
        invariant
            i <= a@.len(),
            a@.len() == b@.len(),
            forall|k: int| 0 <= k < i ==> a@[k] == b@[k],
        decreases a@.len() - i,
    {
        if a[i] != b[i] {
            return false;
        }
        i += 1;
    }
    assert(a@ =~= b@);
    true
}

/// Whether two strings hold the same text.
pub fn same_text(a: &str, b: &str) -> (r: bool)
    ensures
        r == (a@ == b@),
{
    let x = chars_of(a);
    let y = chars_of(b);
    same_chars(x.as_slice(), y.as_slice())
}

/// Two strings joined.
pub fn concat(a: &str, b: &str) -> (r: String)
    ensures
        r@ == a@ + b@,
{
    let mut out: String = String::new();
    out.append(a);
    out.append(b);
    assert(Seq::<char>::empty() + a@ =~= a@);
    out
}

// ---------------------------------------------------------------- searching

/// `pat` stands in `s` at position `i`.
pub open spec fn stands_at(s: Seq<char>, pat: Seq<char>, i: int) -> bool {
    &&& 0 <= i
    &&& i + pat.len() <= s.len()
    &&& s.subrange(i, i + pat.len()) == pat
}

/// The first position at or after `from` where `pat` stands.
pub open spec fn find_from(s: Seq<char>, pat: Seq<char>, from: int) -> Option<int>
    decreases s.len() - from + 1,
{
    if from < 0 || from + pat.len() > s.len() {
        None
    } else if stands_at(s, pat, from) {
        Some(from)
    } else {
        find_from(s, pat, from + 1)
    }
}

/// What `find_from` finds is an occurrence, and there is none before it.
pub proof fn lemma_find_from(s: Seq<char>, pat: Seq<char>, from: int)
    requires
        0 <= from,
    ensures
        match find_from(s, pat, from) {
            Some(i) => from <= i && stands_at(s, pat, i) && forall|j: int|
                from <= j < i ==> !stands_at(s, pat, j),
            None => forall|j: int| from <= j ==> !stands_at(s, pat, j),
        },
    decreases s.len() - from + 1,
{
    if from + pat.len() > s.len() {
    } else if stands_at(s, pat, from) {
    } else {
        lemma_find_from(s, pat, from + 1);
    }
}

/// Whether `pat` stands in `s` at position `i`.
pub fn at(s: &[char], pat: &[char], i: usize) -> (r: bool)
    ensures
        r == stands_at(s@, pat@, i as int),
{
    if pat.len() > s.len() || i > s.len() - pat.len() {
        return false;
    }
    same_chars(slice_subrange(s, i, i + pat.len()), pat)
}

/// The first position at or after `from` where `pat` stands.
pub fn find(s: &[char], pat: &[char], from: usize) -> (r: Option<usize>)
    ensures
        match r {
            Some(i) => find_from(s@, pat@, from as int) == Some(i as int),
            None => find_from(s@, pat@, from as int) is None,
        },
        r matches Some(i) ==> from <= i && i + pat@.len() <= s@.len() <= usize::MAX && stands_at(
            s@,
            pat@,
            i as int,
        ),
{
    let mut i: usize = from;
    loop
        invariant
            from <= i,
            find_from(s@, pat@, i as int) == find_from(s@, pat@, from as int),
        decreases s@.len() - i,
    {
        if pat.len() > s.len() || i > s.len() - pat.len() {
            return None;
        }
        if at(s, pat, i) {
            return Some(i);
        }
        proof {
            if pat@.len() == 0 {
                assert(s@.subrange(i as int, i as int) =~= pat@);
            }
        }
        i += 1;
    }
}

/// The position of the last `c`.
pub open spec fn rfind(s: Seq<char>, c: char) -> Option<int>
    decreases s.len(),
{
    if s.len() == 0 {
        None
    } else if s.last() == c {
        Some(s.len() - 1)
    } else {
        rfind(s.drop_last(), c)
    }
}

/// The position of the last `c`.
pub fn find_last(s: &[char], c: char) -> (r: Option<usize>)
    ensures
        match r {
            Some(i) => rfind(s@, c) == Some(i as int) && i < s@.len() && s@[i as int] == c,
            None => rfind(s@, c) is None,
        },
{
    let mut n: usize = s.len();
    assert(s@.take(n as int) =~= s@);
    while n > 0
        invariant
            n <= s@.len(),
            rfind(s@.take(n as int), c) == rfind(s@, c),
        decreases n,
    {
        assert(s@.take(n as int).last() == s@[n - 1]);
        assert(s@.take(n as int).drop_last() =~= s@.take(n - 1));
        if s[n - 1] == c {
            return Some(n - 1);
        }
        n -= 1;
    }
    None
}

/// Whether the character occurs.
pub fn contains_char(s: &[char], c: char) -> (r: bool)
    ensures
        r == s@.contains(c),
{
    let mut i: usize = 0;
    while i < s.len()
        invariant
            i <= s@.len(),
            forall|k: int| 0 <= k < i ==> s@[k] != c,
        decreases s@.len() - i,
    {
        if s[i] == c {
            return true;
        }
        i += 1;
    }
    false
}

/// `s` begins with `pat`.
pub open spec fn has_prefix(s: Seq<char>, pat: Seq<char>) -> bool {
    stands_at(s, pat, 0)
}

// ---------------------------------------------------------------- replacing

/// Every occurrence of `pat`, taken from the left without overlap, replaced by `with`.
pub open spec fn replaced(s: Seq<char>, pat: Seq<char>, with: Seq<char>) -> Seq<char>
    decreases s.len(),
{
    match find_from(s, pat, 0) {
        Some(i) => if pat.len() > 0 && 0 <= i && i + pat.len() <= s.len() {
            s.take(i) + with + replaced(s.skip(i + pat.len()), pat, with)
        } else {
            s
        },
        None => s,
    }
}

proof fn lemma_find_skip(s: Seq<char>, pat: Seq<char>, base: int, from: int)
    requires
        0 <= base <= s.len(),
        0 <= from,
    ensures
        find_from(s.skip(base), pat, from) == match find_from(s, pat, base + from) {
            Some(i) => Some(i - base),
            None => None,
        },
    decreases s.len() - base - from + 1,
{
    let t = s.skip(base);
    if from + pat.len() > t.len() {
    } else {
        assert(t.subrange(from, from + pat.len()) =~= s.subrange(
            base + from,
            base + from + pat.len(),
        ));
        if stands_at(t, pat, from) {
        } else {
            lemma_find_skip(s, pat, base, from + 1);
        }
    }
}

/// Replaces every occurrence of a pattern, from the left and without overlap.
pub fn replace(s: &[char], pat: &[char], with: &[char]) -> (r: Vec<char>)
    requires
        pat@.len() > 0,
    ensures
        r@ == replaced(s@, pat@, with@),
{
    let mut out: Vec<char> = Vec::new();
    let mut i: usize = 0;
    assert(s@.skip(0) =~= s@);
    while i < s.len()
        invariant
            i <= s@.len(),
            pat@.len() > 0,
            out@ + replaced(s@.skip(i as int), pat@, with@) =~= replaced(s@, pat@, with@),
        decreases s@.len() - i,
    {
        let ghost rest = s@.skip(i as int);
        proof {
            lemma_find_skip(s@, pat@, i as int, 0);
        }
        match find(s, pat, i) {
            Some(j) => {
                extend(&mut out, slice_subrange(s, i, j));
                extend(&mut out, with);
                proof {
                    assert(s@.subrange(i as int, j as int) =~= rest.take(j - i));
                    assert(rest.skip(j - i + pat@.len()) =~= s@.skip(j + pat@.len()));
                }
                i = j + pat.len();
            },
            None => {
                extend(&mut out, slice_subrange(s, i, s.len()));
                proof {
                    assert(s@.subrange(i as int, s@.len() as int) =~= rest);
                    assert(s@.skip(s@.len() as int) =~= Seq::<char>::empty());
                    assert(find_from(Seq::<char>::empty(), pat@, 0) is None);
                }
                i = s.len();
            },
        }
    }
    proof {
        assert(s@.skip(s@.len() as int) =~= Seq::<char>::empty());
        assert(find_from(Seq::<char>::empty(), pat@, 0) is None);
        assert(out@ + Seq::<char>::empty() =~= out@);
    }
    out
}

// ---------------------------------------------------------------- lists of texts

/// The texts in a list of character vectors.
pub open spec fn texts(v: Seq<Vec<char>>) -> Seq<Seq<char>> {
    v.map_values(|x: Vec<char>| x@)
}

/// The texts in a list of strings.
pub open spec fn strings(v: Seq<String>) -> Seq<Seq<char>> {
    v.map_values(|x: String| x@)
}

/// The text of an optional string.
pub open spec fn opt_text(o: Option<String>) -> Option<Seq<char>> {
    match o {
        Some(s) => Some(s@),
        None => None,
    }
}

pub proof fn lemma_texts_push(v: Seq<Vec<char>>, x: Vec<char>)
    ensures
        texts(v.push(x)) == texts(v).push(x@),
{
    assert(texts(v.push(x)) =~= texts(v).push(x@));
}

pub proof fn lemma_strings_push(v: Seq<String>, x: String)
    ensures
        strings(v.push(x)) == strings(v).push(x@),
{
    assert(strings(v.push(x)) =~= strings(v).push(x@));
}

/// The parts with the separator between each two of them.
pub open spec fn joined(parts: Seq<Seq<char>>, sep: Seq<char>) -> Seq<char>
    decreases parts.len(),
{
    if parts.len() == 0 {
        Seq::empty()
    } else if parts.len() == 1 {
        parts[0]
    } else {
        joined(parts.drop_last(), sep) + sep + parts.last()
    }
}

/// Joins the parts, with the separator between each two of them.
pub fn join(parts: &Vec<Vec<char>>, sep: &str) -> (r: Vec<char>)
    ensures
        r@ == joined(texts(parts@), sep@),
{
    let mut out: Vec<char> = Vec::new();
    let mut i: usize = 0;
    let ghost all = texts(parts@);
    assert(all.take(0) =~= Seq::<Seq<char>>::empty());
    while i < parts.len()
        invariant
            i <= parts@.len(),
            all == texts(parts@),
            out@ == joined(all.take(i as int), sep@),
        decreases parts@.len() - i,
    {
        proof {
            assert(all.take(i + 1).drop_last() =~= all.take(i as int));
            assert(all.take(i + 1).last() == parts@[i as int]@);
        }
        if i > 0 {
            extend_str(&mut out, sep);
        }
        let ghost before = out@;
        extend(&mut out, parts[i].as_slice());
        proof {
            if i == 0 {
                assert(before + parts@[0]@ =~= parts@[0]@);
            }
        }
        i += 1;
    }
    assert(all.take(all.len() as int) =~= all);
    out
}

/// The pieces between the occurrences of `c`.
pub open spec fn split_on(s: Seq<char>, c: char) -> Seq<Seq<char>>
    decreases s.len(),
{
    match find_from(s, seq![c], 0) {
        Some(i) => if 0 <= i < s.len() {
            seq![s.take(i)] + split_on(s.skip(i + 1), c)
        } else {
            seq![s]
        },
        None => seq![s],
    }
}

/// Splits at every `c`.
pub fn split(s: &[char], c: char) -> (r: Vec<Vec<char>>)
    ensures
        texts(r@) == split_on(s@, c),
{
    let mut out: Vec<Vec<char>> = Vec::new();
    let mut i: usize = 0;
    let pat: Vec<char> = vec![c];
    assert(pat@ =~= seq![c]);
    assert(s@.skip(0) =~= s@);
    assert(texts(out@) =~= Seq::<Seq<char>>::empty());
    loop
        invariant
            i <= s@.len(),
            pat@ == seq![c],
            texts(out@) + split_on(s@.skip(i as int), c) =~= split_on(s@, c),
        decreases s@.len() - i,
    {
        let ghost rest = s@.skip(i as int);
        let ghost done = texts(out@);
        proof {
            lemma_find_skip(s@, pat@, i as int, 0);
        }
        match find(s, pat.as_slice(), i) {
            Some(j) => {
                let piece = slice_to_vec(slice_subrange(s, i, j));
                proof {
                    lemma_texts_push(out@, piece);
                    assert(piece@ =~= rest.take(j - i));
                    assert(rest.skip(j - i + 1) =~= s@.skip(j + 1));
                    assert(done.push(piece@) + split_on(s@.skip(j + 1), c) =~= done + (seq![piece@]
                        + split_on(s@.skip(j + 1), c)));
                }
                out.push(piece);
                assert(j < s.len());
                i = j + 1;
            },
            None => {
                let piece = slice_to_vec(slice_subrange(s, i, s.len()));
                proof {
                    lemma_texts_push(out@, piece);
                    assert(piece@ =~= rest);
                    assert(done.push(piece@) =~= done + seq![rest]);
                }
                out.push(piece);
                return out;
            },
        }
    }
}

/// A line without the carriage return of a CRLF line ending.
pub open spec fn chomp(line: Seq<char>) -> Seq<char> {
    if line.len() > 0 && line.last() == '\r' {
        line.drop_last()
    } else {
        line
    }
}

/// The lines of a text. A line ends with LF or CRLF; the last line ending is optional.
pub open spec fn lines_of(s: Seq<char>) -> Seq<Seq<char>>
    decreases s.len(),
{
    if s.len() == 0 {
        Seq::empty()
    } else {
        match find_from(s, seq!['\n'], 0) {
            Some(i) => if 0 <= i < s.len() {
                seq![chomp(s.take(i))] + lines_of(s.skip(i + 1))
            } else {
                seq![s]
            },
            None => seq![s],
        }
    }
}

/// Splits into lines.
pub fn lines(s: &[char]) -> (r: Vec<Vec<char>>)
    ensures
        texts(r@) == lines_of(s@),
{
    let mut out: Vec<Vec<char>> = Vec::new();
    let mut i: usize = 0;
    let pat: Vec<char> = vec!['\n'];
    assert(pat@ =~= seq!['\n']);
    assert(s@.skip(0) =~= s@);
    assert(texts(out@) =~= Seq::<Seq<char>>::empty());
    while i < s.len()
        invariant
            i <= s@.len(),
            pat@ == seq!['\n'],
            texts(out@) + lines_of(s@.skip(i as int)) =~= lines_of(s@),
        decreases s@.len() - i,
    {
        let ghost rest = s@.skip(i as int);
        let ghost done = texts(out@);
        proof {
            lemma_find_skip(s@, pat@, i as int, 0);
        }
        match find(s, pat.as_slice(), i) {
            Some(j) => {
                let end: usize = if j > i && s[j - 1] == '\r' {
                    j - 1
                } else {
                    j
                };
                let piece = slice_to_vec(slice_subrange(s, i, end));
                proof {
                    lemma_texts_push(out@, piece);
                    let line = rest.take(j - i);
                    if j > i {
                        assert(line.last() == s@[j - 1]);
                    }
                    assert(piece@ =~= chomp(line));
                    assert(rest.skip(j - i + 1) =~= s@.skip(j + 1));
                    assert(done.push(piece@) + lines_of(s@.skip(j + 1)) =~= done + (seq![piece@]
                        + lines_of(s@.skip(j + 1))));
                }
                out.push(piece);
                i = j + 1;
            },
            None => {
                let piece = slice_to_vec(slice_subrange(s, i, s.len()));
                proof {
                    lemma_texts_push(out@, piece);
                    assert(piece@ =~= rest);
                    assert(done.push(piece@) =~= done + seq![rest]);
                    assert(s@.skip(s@.len() as int) =~= Seq::<char>::empty());
                    assert(done.push(piece@) + Seq::<Seq<char>>::empty() =~= done.push(piece@));
                }
                out.push(piece);
                i = s.len();
            },
        }
    }
    proof {
        assert(s@.skip(s@.len() as int) =~= Seq::<char>::empty());
        assert(texts(out@) + Seq::<Seq<char>>::empty() =~= texts(out@));
    }
    out
}

// ---------------------------------------------------------------- white space

/// The characters with the Unicode property White_Space.
pub open spec fn is_white(c: char) -> bool {
    let n = c as u32;
    ||| 0x9 <= n <= 0xd
    ||| n == 0x20
    ||| n == 0x85
    ||| n == 0xa0
    ||| n == 0x1680
    ||| 0x2000 <= n <= 0x200a
    ||| n == 0x2028
    ||| n == 0x2029
    ||| n == 0x202f
    ||| n == 0x205f
    ||| n == 0x3000
}

/// Whether the character has the Unicode property White_Space.
pub fn white(c: char) -> (r: bool)
    ensures
        r == is_white(c),
{
    let n: u32 = c as u32;
    (0x9 <= n && n <= 0xd) || n == 0x20 || n == 0x85 || n == 0xa0 || n == 0x1680 || (0x2000 <= n
        && n <= 0x200a) || n == 0x2028 || n == 0x2029 || n == 0x202f || n == 0x205f || n == 0x3000
}

/// The text without leading white space.
pub open spec fn trimmed_start(s: Seq<char>) -> Seq<char>
    decreases s.len(),
{
    if s.len() > 0 && is_white(s[0]) {
        trimmed_start(s.drop_first())
    } else {
        s
    }
}

/// The text without trailing white space.
pub open spec fn trimmed_end(s: Seq<char>) -> Seq<char>
    decreases s.len(),
{
    if s.len() > 0 && is_white(s.last()) {
        trimmed_end(s.drop_last())
    } else {
        s
    }
}

/// The text without leading and trailing white space.
pub open spec fn trimmed(s: Seq<char>) -> Seq<char> {
    trimmed_end(trimmed_start(s))
}

/// The part of the slice without leading white space.
pub fn trim_start(s: &[char]) -> (r: &[char])
    ensures
        r@ == trimmed_start(s@),
{
    let mut i: usize = 0;
    assert(s@.skip(0) =~= s@);
    while i < s.len() && white(s[i])
        invariant
            i <= s@.len(),
            trimmed_start(s@.skip(i as int)) == trimmed_start(s@),
        decreases s@.len() - i,
    {
        assert(s@.skip(i as int).drop_first() =~= s@.skip(i + 1));
        assert(s@.skip(i as int)[0] == s@[i as int]);
        i += 1;
    }
    proof {
        if i < s@.len() {
            assert(s@.skip(i as int)[0] == s@[i as int]);
        }
        assert(s@.subrange(i as int, s@.len() as int) =~= s@.skip(i as int));
    }
    slice_subrange(s, i, s.len())
}

/// The part of the slice without leading and trailing white space.
pub fn trim(s: &[char]) -> (r: &[char])
    ensures
        r@ == trimmed(s@),
{
    let t = trim_start(s);
    let mut n: usize = t.len();
    assert(t@.take(n as int) =~= t@);
    while n > 0 && white(t[n - 1])
        invariant
            n <= t@.len(),
            trimmed_end(t@.take(n as int)) == trimmed_end(t@),
        decreases n,
    {
        assert(t@.take(n as int).drop_last() =~= t@.take(n - 1));
        assert(t@.take(n as int).last() == t@[n - 1]);
        n -= 1;
    }
    proof {
        if n > 0 {
            assert(t@.take(n as int).last() == t@[n - 1]);
        }
        assert(t@.subrange(0, n as int) =~= t@.take(n as int));
    }
    slice_subrange(t, 0, n)
}

/// How many characters stand before the first white space.
pub open spec fn word_len(s: Seq<char>) -> nat
    decreases s.len(),
{
    if s.len() == 0 || is_white(s[0]) {
        0
    } else {
        1 + word_len(s.drop_first())
    }
}

/// The words of a text: its runs of characters that are not white space.
pub open spec fn words_of(s: Seq<char>) -> Seq<Seq<char>>
    decreases s.len(),
{
    if s.len() == 0 {
        Seq::empty()
    } else if is_white(s[0]) {
        words_of(s.drop_first())
    } else {
        let n = word_len(s);
        if 0 < n <= s.len() {
            seq![s.take(n as int)] + words_of(s.skip(n as int))
        } else {
            Seq::empty()
        }
    }
}

proof fn lemma_word_len(s: Seq<char>)
    ensures
        word_len(s) <= s.len(),
        s.len() > 0 && !is_white(s[0]) ==> word_len(s) > 0,
    decreases s.len(),
{
    if s.len() > 0 {
        lemma_word_len(s.drop_first());
    }
}

/// Splits into the runs of characters that are not white space.
pub fn words(s: &[char]) -> (r: Vec<String>)
    ensures
        strings(r@) == words_of(s@),
{
    let mut out: Vec<String> = Vec::new();
    let mut i: usize = 0;
    assert(s@.skip(0) =~= s@);
    assert(strings(out@) =~= Seq::<Seq<char>>::empty());
    while i < s.len()
        invariant
            i <= s@.len(),
            strings(out@) + words_of(s@.skip(i as int)) =~= words_of(s@),
        decreases s@.len() - i,
    {
        let ghost rest = s@.skip(i as int);
        let ghost done = strings(out@);
        assert(rest[0] == s@[i as int]);
        if white(s[i]) {
            assert(rest.drop_first() =~= s@.skip(i + 1));
            i += 1;
        } else {
            let mut j: usize = i;
            while j < s.len() && !white(s[j])
                invariant
                    i <= j <= s@.len(),
                    i < s@.len(),
                    rest == s@.skip(i as int),
                    word_len(rest) == (j - i) + word_len(s@.skip(j as int)),
                decreases s@.len() - j,
            {
                assert(s@.skip(j as int).drop_first() =~= s@.skip(j + 1));
                assert(s@.skip(j as int)[0] == s@[j as int]);
                j += 1;
            }
            let piece = string_of(slice_subrange(s, i, j));
            proof {
                lemma_word_len(rest);
                if j < s@.len() {
                    assert(s@.skip(j as int)[0] == s@[j as int]);
                }
                assert(word_len(rest) == j - i);
                lemma_strings_push(out@, piece);
                assert(piece@ =~= rest.take(j - i));
                assert(rest.skip(j - i) =~= s@.skip(j as int));
                assert(done.push(piece@) + words_of(s@.skip(j as int)) =~= done + (seq![piece@]
                    + words_of(s@.skip(j as int))));
            }
            out.push(piece);
            i = j;
        }
    }
    proof {
        assert(s@.skip(s@.len() as int) =~= Seq::<char>::empty());
        assert(strings(out@) + Seq::<Seq<char>>::empty() =~= strings(out@));
    }
    out
}

/// Whether the text is empty but for white space.
pub fn is_blank(s: &str) -> (r: bool)
    ensures
        r == (trimmed(s@).len() == 0),
{
    let chars = chars_of(s);
    trim(chars.as_slice()).len() == 0
}

// ---------------------------------------------------------------- bytes

/// How many bytes the UTF-8 encoding of a character takes.
pub open spec fn char_width(c: char) -> nat {
    let n = c as u32;
    if n < 0x80 {
        1
    } else if n < 0x800 {
        2
    } else if n < 0x10000 {
        3
    } else {
        4
    }
}

/// How many bytes the UTF-8 encoding of a text takes.
pub open spec fn byte_len(s: Seq<char>) -> nat
    decreases s.len(),
{
    if s.len() == 0 {
        0
    } else {
        byte_len(s.drop_last()) + char_width(s.last())
    }
}

proof fn lemma_byte_len_front(s: Seq<char>)
    requires
        s.len() > 0,
    ensures
        byte_len(s) == char_width(s[0]) + byte_len(s.drop_first()),
    decreases s.len(),
{
    if s.len() == 1 {
        assert(s.drop_last() =~= Seq::<char>::empty());
        assert(s.drop_first() =~= Seq::<char>::empty());
    } else {
        lemma_byte_len_front(s.drop_last());
        assert(s.drop_last().drop_first() =~= s.drop_first().drop_last());
        assert(s.drop_first().last() == s.last());
    }
}

/// `byte_len` is the length of the UTF-8 encoding.
pub proof fn byte_len_is_utf8_len(s: Seq<char>)
    ensures
        byte_len(s) == vstd::utf8::encode_utf8(s).len(),
    decreases s.len(),
{
    if s.len() > 0 {
        lemma_byte_len_front(s);
        byte_len_is_utf8_len(s.drop_first());
        vstd::utf8::char_is_scalar(s[0]);
    }
}

/// A text is at least as long in bytes as in characters, and at most four times as long.
pub proof fn lemma_byte_len_bounds(s: Seq<char>)
    ensures
        s.len() <= byte_len(s) <= 4 * s.len(),
    decreases s.len(),
{
    if s.len() > 0 {
        lemma_byte_len_bounds(s.drop_last());
    }
}

/// A longer prefix takes more bytes.
pub proof fn lemma_byte_len_take(s: Seq<char>, i: int, j: int)
    requires
        0 <= i <= j <= s.len(),
    ensures
        byte_len(s.take(i)) + (j - i) <= byte_len(s.take(j)) <= byte_len(s.take(i)) + 4 * (j - i),
    decreases j - i,
{
    if i < j {
        lemma_byte_len_take(s, i, j - 1);
        assert(s.take(j).drop_last() =~= s.take(j - 1));
    }
}

/// The byte position `b` of `s` falls between two characters.
pub open spec fn on_boundary(s: Seq<char>, b: nat) -> bool {
    exists|k: int| 0 <= k <= s.len() && #[trigger] byte_len(s.take(k)) == b
}

/// The characters of `s` that lie wholly within its first `limit` bytes.
pub open spec fn within_bytes(s: Seq<char>, limit: nat) -> Seq<char>
    decreases s.len(),
{
    if byte_len(s) <= limit || s.len() == 0 {
        s
    } else {
        within_bytes(s.drop_last(), limit)
    }
}

/// What lies within the first `limit` bytes takes no more than that.
pub proof fn lemma_within_bytes_fits(s: Seq<char>, limit: nat)
    ensures
        byte_len(within_bytes(s, limit)) <= limit,
    decreases s.len(),
{
    if byte_len(s) > limit && s.len() > 0 {
        lemma_within_bytes_fits(s.drop_last(), limit);
    }
}

/// The bytes that the character takes.
pub fn width(c: char) -> (r: usize)
    ensures
        r == char_width(c),
{
    let n: u32 = c as u32;
    if n < 0x80 {
        1
    } else if n < 0x800 {
        2
    } else if n < 0x10000 {
        3
    } else {
        4
    }
}

/// Whether the text takes more than `limit` bytes.
pub fn longer_than(s: &[char], limit: usize) -> (r: bool)
    ensures
        r == (byte_len(s@) > limit),
{
    let mut i: usize = 0;
    let mut n: usize = 0;
    assert(s@.take(0) =~= Seq::<char>::empty());
    while i < s.len()
        invariant
            i <= s@.len(),
            n == byte_len(s@.take(i as int)),
            n <= limit,
        decreases s@.len() - i,
    {
        let w: usize = width(s[i]);
        proof {
            assert(s@.take(i + 1).drop_last() =~= s@.take(i as int));
            lemma_byte_len_take(s@, i + 1, s@.len() as int);
            assert(s@.take(s@.len() as int) =~= s@);
        }
        if w > limit - n {
            return true;
        }
        n += w;
        i += 1;
    }
    assert(s@.take(s@.len() as int) =~= s@);
    false
}

/// How many characters lie wholly within the first `limit` bytes.
pub fn count_within(s: &[char], limit: usize) -> (r: usize)
    ensures
        r <= s@.len(),
        s@.take(r as int) == within_bytes(s@, limit as nat),
        byte_len(s@.take(r as int)) <= limit,
        r < s@.len() ==> byte_len(s@.take(r + 1)) > limit,
{
    let mut i: usize = 0;
    let mut n: usize = 0;
    assert(s@.take(0) =~= Seq::<char>::empty());
    while i < s.len() && width(s[i]) <= limit - n
        invariant
            i <= s@.len(),
            n == byte_len(s@.take(i as int)),
            n <= limit,
        decreases s@.len() - i,
    {
        assert(s@.take(i + 1).drop_last() =~= s@.take(i as int));
        n += width(s[i]);
        i += 1;
    }
    proof {
        if i < s@.len() {
            assert(s@.take(i + 1).drop_last() =~= s@.take(i as int));
        }
        lemma_within(s@, limit as nat, i as int, s@.len() as int);
        assert(s@.take(s@.len() as int) =~= s@);
    }
    i
}

proof fn lemma_within(s: Seq<char>, limit: nat, i: int, j: int)
    requires
        0 <= i <= j <= s.len(),
        byte_len(s.take(i)) <= limit,
        i < s.len() ==> byte_len(s.take(i + 1)) > limit,
    ensures
        within_bytes(s.take(j), limit) == s.take(i),
    decreases j - i,
{
    if i < j {
        lemma_byte_len_take(s, i + 1, j);
        assert(s.take(j).drop_last() =~= s.take(j - 1));
        lemma_within(s, limit, i, j - 1);
    }
}

/// Whether the byte position falls between two characters.
pub fn boundary(s: &[char], b: usize) -> (r: bool)
    ensures
        r == on_boundary(s@, b as nat),
{
    let mut i: usize = 0;
    let mut n: usize = 0;
    assert(s@.take(0) =~= Seq::<char>::empty());
    while i < s.len() && width(s[i]) <= b - n
        invariant
            i <= s@.len(),
            n == byte_len(s@.take(i as int)),
            n <= b,
        decreases s@.len() - i,
    {
        assert(s@.take(i + 1).drop_last() =~= s@.take(i as int));
        n += width(s[i]);
        i += 1;
    }
    proof {
        if n != b && on_boundary(s@, b as nat) {
            let k = choose|k: int| 0 <= k <= s@.len() && #[trigger] byte_len(s@.take(k)) == b;
            if k <= i {
                lemma_byte_len_take(s@, k, i as int);
            } else {
                assert(s@.take(i + 1).drop_last() =~= s@.take(i as int));
                lemma_byte_len_take(s@, i + 1, k);
            }
        }
    }
    n == b
}

/// The length in bytes. It fits, since the text was a string or part of one.
pub fn bytes_in(s: &[char]) -> (r: usize)
    requires
        byte_len(s@) <= usize::MAX,
    ensures
        r == byte_len(s@),
{
    let mut i: usize = 0;
    let mut n: usize = 0;
    assert(s@.take(0) =~= Seq::<char>::empty());
    while i < s.len()
        invariant
            i <= s@.len(),
            n == byte_len(s@.take(i as int)),
            byte_len(s@) <= usize::MAX,
        decreases s@.len() - i,
    {
        proof {
            assert(s@.take(i + 1).drop_last() =~= s@.take(i as int));
            lemma_byte_len_take(s@, i + 1, s@.len() as int);
            assert(s@.take(s@.len() as int) =~= s@);
        }
        n += width(s[i]);
        i += 1;
    }
    assert(s@.take(s@.len() as int) =~= s@);
    n
}

// ---------------------------------------------------------------- numbers

/// The digit character of a number below ten.
pub open spec fn digit(d: nat) -> char {
    (48 + d) as char
}

/// The decimal notation of a number.
pub open spec fn decimal(n: nat) -> Seq<char>
    decreases n,
{
    if n < 10 {
        seq![digit(n)]
    } else {
        decimal(n / 10).push(digit(n % 10))
    }
}

/// Writes a number in decimal.
pub fn number(n: u128) -> (r: Vec<char>)
    ensures
        r@ == decimal(n as nat),
    decreases n,
{
    let d: u8 = (n % 10) as u8;
    let c: char = (48u8 + d) as char;
    if n < 10 {
        let out: Vec<char> = vec![c];
        assert(out@ =~= seq![digit(n as nat)]);
        out
    } else {
        let mut out = number(n / 10);
        out.push(c);
        out
    }
}

/// A decimal digit character.
pub open spec fn is_digit(c: char) -> bool {
    '0' <= c <= '9'
}

/// The value of a text of decimal digits.
pub open spec fn digits_value(s: Seq<char>) -> nat
    decreases s.len(),
{
    if s.len() == 0 {
        0
    } else {
        digits_value(s.drop_last()) * 10 + (s.last() as u32 - 48) as nat
    }
}

/// The text without a leading plus sign.
pub open spec fn unsigned_part(s: Seq<char>) -> Seq<char> {
    if s.len() > 0 && s[0] == '+' {
        s.drop_first()
    } else {
        s
    }
}

/// The 64-bit number that a text denotes: an optional plus sign, then decimal digits alone.
pub open spec fn parsed_number(s: Seq<char>) -> Option<u64> {
    let d = unsigned_part(s);
    if d.len() > 0 && (forall|i: int| 0 <= i < d.len() ==> is_digit(#[trigger] d[i]))
        && digits_value(d) <= u64::MAX {
        Some(digits_value(d) as u64)
    } else {
        None
    }
}

proof fn lemma_digits_value_take(s: Seq<char>, i: int)
    requires
        0 <= i <= s.len(),
    ensures
        digits_value(s.take(i)) <= digits_value(s),
    decreases s.len() - i,
{
    if i < s.len() {
        lemma_digits_value_take(s, i + 1);
        assert(s.take(i + 1).drop_last() =~= s.take(i));
    } else {
        assert(s.take(i) =~= s);
    }
}

/// Reads a 64-bit number: an optional plus sign, then decimal digits alone.
pub fn parse_number(s: &str) -> (r: Option<u64>)
    ensures
        r == parsed_number(s@),
{
    let all = chars_of(s);
    let start: usize = if all.len() > 0 && all[0] == '+' {
        1
    } else {
        0
    };
    let d = slice_subrange(all.as_slice(), start, all.len());
    assert(d@ =~= unsigned_part(s@));
    if d.len() == 0 {
        return None;
    }
    let mut i: usize = 0;
    let mut n: u64 = 0;
    assert(d@.take(0) =~= Seq::<char>::empty());
    while i < d.len()
        invariant
            i <= d@.len(),
            d@ == unsigned_part(s@),
            d@.len() > 0,
            forall|k: int| 0 <= k < i ==> is_digit(#[trigger] d@[k]),
            n == digits_value(d@.take(i as int)),
        decreases d@.len() - i,
    {
        let c: char = d[i];
        if c < '0' || c > '9' {
            assert(!is_digit(d@[i as int]));
            return None;
        }
        let v: u64 = (c as u32 - 48) as u64;
        proof {
            assert(d@.take(i + 1).drop_last() =~= d@.take(i as int));
            assert(digits_value(d@.take(i + 1)) == n * 10 + v);
            lemma_digits_value_take(d@, i + 1);
        }
        if n > (u64::MAX - v) / 10 {
            return None;
        }
        n = n * 10 + v;
        i += 1;
    }
    assert(d@.take(d@.len() as int) =~= d@);
    Some(n)
}

// ---------------------------------------------------------------- counting

/// How often a character occurs.
pub open spec fn count(s: Seq<char>, c: char) -> nat
    decreases s.len(),
{
    if s.len() == 0 {
        0
    } else {
        count(s.drop_last(), c) + if s.last() == c {
            1nat
        } else {
            0nat
        }
    }
}

/// Occurrences add up over two texts joined.
pub proof fn lemma_count_add(a: Seq<char>, b: Seq<char>, c: char)
    ensures
        count(a + b, c) == count(a, c) + count(b, c),
    decreases b.len(),
{
    if b.len() == 0 {
        assert(a + b =~= a);
    } else {
        lemma_count_add(a, b.drop_last(), c);
        assert((a + b).drop_last() =~= a + b.drop_last());
        assert((a + b).last() == b.last());
    }
}

/// A character that does not occur has the count zero.
pub proof fn lemma_count_absent(s: Seq<char>, c: char)
    ensures
        count(s, c) == 0 <==> !s.contains(c),
    decreases s.len(),
{
    if s.len() > 0 {
        lemma_count_absent(s.drop_last(), c);
        if s.contains(c) && s.last() != c {
            let i = choose|i: int| 0 <= i < s.len() && s[i] == c;
            assert(s.drop_last()[i] == c);
        }
        if s.drop_last().contains(c) {
            let i = choose|i: int| 0 <= i < s.drop_last().len() && s.drop_last()[i] == c;
            assert(s[i] == c);
        }
        if s.last() == c {
            assert(s[s.len() - 1] == c);
        }
    }
}

/// Bytes add up over two texts joined.
pub proof fn lemma_byte_len_add(a: Seq<char>, b: Seq<char>)
    ensures
        byte_len(a + b) == byte_len(a) + byte_len(b),
    decreases b.len(),
{
    if b.len() == 0 {
        assert(a + b =~= a);
    } else {
        lemma_byte_len_add(a, b.drop_last());
        assert((a + b).drop_last() =~= a + b.drop_last());
        assert((a + b).last() == b.last());
    }
}

/// A part of a text takes no more bytes than the text.
pub proof fn lemma_byte_len_part(s: Seq<char>, i: int, j: int)
    requires
        0 <= i <= j <= s.len(),
    ensures
        byte_len(s.subrange(i, j)) <= byte_len(s),
{
    lemma_byte_len_add(s.take(i), s.subrange(i, j));
    lemma_byte_len_add(s.take(i) + s.subrange(i, j), s.skip(j));
    assert(s.take(i) + s.subrange(i, j) + s.skip(j) =~= s);
}

/// Every part of a list takes at most `limit` bytes.
pub open spec fn parts_fit(parts: Seq<Seq<char>>, limit: nat) -> bool {
    forall|i: int| 0 <= i < parts.len() ==> byte_len(#[trigger] parts[i]) <= limit
}

/// The pieces of a split take no more bytes than the text.
pub proof fn lemma_split_fits(s: Seq<char>, c: char)
    ensures
        parts_fit(split_on(s, c), byte_len(s)),
    decreases s.len(),
{
    match find_from(s, seq![c], 0) {
        Some(i) => if 0 <= i < s.len() {
            lemma_split_fits(s.skip(i + 1), c);
            lemma_byte_len_part(s, 0, i);
            lemma_byte_len_part(s, i + 1, s.len() as int);
            assert(s.take(i) =~= s.subrange(0, i));
            assert(s.skip(i + 1) =~= s.subrange(i + 1, s.len() as int));
            let rest = split_on(s.skip(i + 1), c);
            assert forall|k: int| 0 <= k < split_on(s, c).len() implies byte_len(
                #[trigger] split_on(s, c)[k],
            ) <= byte_len(s) by {
                if k > 0 {
                    assert(split_on(s, c)[k] == rest[k - 1]);
                }
            }
        },
        None => {},
    }
}

/// The lines of a text take no more bytes than the text.
pub proof fn lemma_lines_fit(s: Seq<char>)
    ensures
        parts_fit(lines_of(s), byte_len(s)),
    decreases s.len(),
{
    if s.len() > 0 {
        match find_from(s, seq!['\n'], 0) {
            Some(i) => if 0 <= i < s.len() {
                lemma_lines_fit(s.skip(i + 1));
                lemma_byte_len_part(s, 0, i);
                lemma_byte_len_part(s, i + 1, s.len() as int);
                assert(s.take(i) =~= s.subrange(0, i));
                assert(s.skip(i + 1) =~= s.subrange(i + 1, s.len() as int));
                let rest = lines_of(s.skip(i + 1));
                assert forall|k: int| 0 <= k < lines_of(s).len() implies byte_len(
                    #[trigger] lines_of(s)[k],
                ) <= byte_len(s) by {
                    if k > 0 {
                        assert(lines_of(s)[k] == rest[k - 1]);
                    }
                }
            },
            None => {},
        }
    }
}

/// A trimmed text takes no more bytes than the text.
pub proof fn lemma_trimmed_fits(s: Seq<char>)
    ensures
        byte_len(trimmed(s)) <= byte_len(s),
{
    lemma_trimmed_start_fits(s);
    lemma_trimmed_end_fits(trimmed_start(s));
}

proof fn lemma_trimmed_start_fits(s: Seq<char>)
    ensures
        byte_len(trimmed_start(s)) <= byte_len(s),
    decreases s.len(),
{
    if s.len() > 0 && is_white(s[0]) {
        lemma_trimmed_start_fits(s.drop_first());
        lemma_byte_len_front(s);
    }
}

proof fn lemma_trimmed_end_fits(s: Seq<char>)
    ensures
        byte_len(trimmed_end(s)) <= byte_len(s),
    decreases s.len(),
{
    if s.len() > 0 && is_white(s.last()) {
        lemma_trimmed_end_fits(s.drop_last());
    }
}

/// The bytes of a string are no more than a machine word can count.
pub fn string_fits(s: &str)
    ensures
        byte_len(s@) <= usize::MAX,
{
    let n: usize = s.as_bytes().len();
    proof {
        byte_len_is_utf8_len(s@);
    }
}

} // verus!
