//! What in a Markdown text is taken literally: code, addresses, tags and escaped characters.

use crate::text;
use vstd::prelude::*;
use vstd::slice::slice_subrange;

verus! {

// ---------------------------------------------------------------- code

/// How many backticks stand in a row from `i` on.
pub open spec fn ticks_at(s: Seq<char>, i: int) -> nat
    decreases s.len() - i,
{
    if 0 <= i < s.len() && s[i] == '`' {
        1 + ticks_at(s, i + 1)
    } else {
        0
    }
}

/// Where the first row of exactly `n` backticks at or after `from` begins.
pub open spec fn closing_ticks(s: Seq<char>, n: nat, from: int) -> Option<int>
    decreases s.len() - from,
{
    if from < 0 || from >= s.len() {
        None
    } else {
        let k = ticks_at(s, from);
        if k == 0 {
            closing_ticks(s, n, from + 1)
        } else if k == n {
            Some(from)
        } else {
            proof {
                lemma_ticks_at(s, from);
            }
            closing_ticks(s, n, from + k)
        }
    }
}

/// A row of backticks ends within the text.
pub proof fn lemma_ticks_at(s: Seq<char>, i: int)
    requires
        0 <= i <= s.len(),
    ensures
        i + ticks_at(s, i) <= s.len(),
    decreases s.len() - i,
{
    if i < s.len() && s[i] == '`' {
        lemma_ticks_at(s, i + 1);
    }
}

/// What closes code is a row of as many backticks.
pub proof fn lemma_closing_ticks(s: Seq<char>, n: nat, from: int)
    ensures
        closing_ticks(s, n, from) matches Some(j) ==> 0 <= from <= j < s.len() && ticks_at(s, j) == n
            && n > 0 && j + n <= s.len(),
    decreases s.len() - from,
{
    if 0 <= from < s.len() {
        let k = ticks_at(s, from);
        lemma_ticks_at(s, from);
        if k == 0 {
            lemma_closing_ticks(s, n, from + 1);
        } else if k != n {
            lemma_closing_ticks(s, n, from + k);
        }
    }
}

/// The character at `i` lies in code, seen from `from`, which lies outside.
///
/// A row of backticks opens code that the next row of the same length closes. A row of three or more
/// that nothing closes makes code of all that follows; a shorter one makes none.
pub open spec fn in_code_from(s: Seq<char>, from: int, i: int) -> bool
    decreases s.len() - from,
{
    if from < 0 || from >= s.len() || i < from {
        false
    } else {
        let k = ticks_at(s, from);
        if k == 0 {
            in_code_from(s, from + 1, i)
        } else {
            match closing_ticks(s, k, from + k) {
                Some(j) => if i < j + k {
                    true
                } else {
                    proof {
                        lemma_closing_ticks(s, k, from + k);
                    }
                    in_code_from(s, j + k, i)
                },
                None => if k >= 3 {
                    true
                } else {
                    proof {
                        lemma_ticks_at(s, from);
                    }
                    in_code_from(s, from + k, i)
                },
            }
        }
    }
}

/// The character at `i` lies in a code span or a fenced code block, the backticks included.
pub open spec fn in_code(s: Seq<char>, i: int) -> bool {
    in_code_from(s, 0, i)
}

fn count_ticks(s: &[char], i: usize) -> (r: usize)
    requires
        i <= s@.len(),
    ensures
        r == ticks_at(s@, i as int),
        i + r <= s@.len(),
{
    let n: usize = s.len();
    let mut k: usize = i;
    proof {
        lemma_ticks_at(s@, i as int);
    }
    while k < n && s[k] == '`'
        invariant
            n == s@.len(),
            i <= k <= n,
            ticks_at(s@, i as int) == (k - i) + ticks_at(s@, k as int),
        decreases n - k,
    {
        k = k + 1;
    }
    k - i
}

fn find_closing_ticks(s: &[char], n: usize, from: usize) -> (r: Option<usize>)
    requires
        from <= s@.len(),
    ensures
        match r {
            Some(j) => closing_ticks(s@, n as nat, from as int) == Some(j as int),
            None => closing_ticks(s@, n as nat, from as int) is None,
        },
{
    let mut i: usize = from;
    while i < s.len()
        invariant
            i <= s@.len(),
            closing_ticks(s@, n as nat, from as int) == closing_ticks(s@, n as nat, i as int),
        decreases s@.len() - i,
    {
        let k: usize = count_ticks(s, i);
        if k == 0 {
            i = i + 1;
        } else if k == n {
            return Some(i);
        } else {
            i = i + k;
        }
    }
    None
}

fn lies_in_code(s: &[char], i: usize) -> (r: bool)
    ensures
        r == in_code(s@, i as int),
{
    let n: usize = s.len();
    let mut from: usize = 0;
    while from < n && from <= i
        invariant
            n == s@.len(),
            from <= n,
            in_code(s@, i as int) == in_code_from(s@, from as int, i as int),
        decreases n - from,
    {
        let k: usize = count_ticks(s, from);
        if k == 0 {
            from = from + 1;
        } else {
            proof {
                lemma_closing_ticks(s@, k as nat, from + k);
            }
            match find_closing_ticks(s, k, from + k) {
                Some(j) => {
                    if i < j + k {
                        return true;
                    }
                    from = j + k;
                },
                None => {
                    if k >= 3 {
                        return true;
                    }
                    from = from + k;
                },
            }
        }
    }
    false
}

// ---------------------------------------------------------------- addresses of links

/// A `](` stands before `i`, and no `)` between.
pub open spec fn address_open(s: Seq<char>, i: int) -> bool
    decreases i,
{
    if i <= 0 || i > s.len() || s[i - 1] == ')' {
        false
    } else if i >= 2 && s[i - 2] == ']' && s[i - 1] == '(' {
        true
    } else {
        address_open(s, i - 1)
    }
}

/// The character at `i` lies in the address of a link: between `](` and the next `)`.
pub open spec fn in_address(s: Seq<char>, i: int) -> bool {
    address_open(s, i) && s.skip(i).contains(')')
}

/// Whether the character at `i` lies in the address of a link.
pub fn lies_in_address(s: &[char], i: usize) -> (r: bool)
    requires
        i <= s@.len(),
    ensures
        r == in_address(s@, i as int),
{
    let rest = slice_subrange(s, i, s.len());
    assert(rest@ =~= s@.skip(i as int));
    if !text::contains_char(rest, ')') {
        return false;
    }
    let mut k: usize = i;
    while k > 0
        invariant
            k <= s@.len(),
            address_open(s@, i as int) == address_open(s@, k as int),
            s@.skip(i as int).contains(')'),
        decreases k,
    {
        if s[k - 1] == ')' {
            return false;
        }
        if k >= 2 && s[k - 2] == ']' && s[k - 1] == '(' {
            return true;
        }
        k = k - 1;
    }
    false
}

// ---------------------------------------------------------------- addresses in the text

/// The character ends an address that stands in the text.
pub open spec fn ends_address(c: char) -> bool {
    text::is_white(c) || c == ']' || c == '>'
}

/// A `://` stands before `i`, and nothing between that ends an address.
pub open spec fn scheme_before(s: Seq<char>, i: int) -> bool
    decreases i,
{
    if i <= 0 || i > s.len() || ends_address(s[i - 1]) {
        false
    } else if i >= 3 && s[i - 3] == ':' && s[i - 2] == '/' && s[i - 1] == '/' {
        true
    } else {
        scheme_before(s, i - 1)
    }
}

/// A mark that belongs to the sentence and not to the address that it follows.
pub open spec fn is_trailing(c: char) -> bool {
    c == '_' || c == '*' || c == '~' || c == '.' || c == ',' || c == ':' || c == ';' || c == '!' || c
        == '?' || c == ')' || c == '`'
}

/// From `i` on nothing follows in the address but marks of the sentence.
pub open spec fn trails(s: Seq<char>, i: int) -> bool
    decreases s.len() - i,
{
    if i < 0 || i >= s.len() || ends_address(s[i]) {
        true
    } else {
        is_trailing(s[i]) && trails(s, i + 1)
    }
}

/// The character at `i` lies in an address that stands in the text, such as `https://example.com`.
pub open spec fn in_plain_address(s: Seq<char>, i: int) -> bool {
    scheme_before(s, i) && !trails(s, i)
}

fn stops(c: char) -> (r: bool)
    ensures
        r == ends_address(c),
{
    text::white(c) || c == ']' || c == '>'
}

fn marks_end(c: char) -> (r: bool)
    ensures
        r == is_trailing(c),
{
    c == '_' || c == '*' || c == '~' || c == '.' || c == ',' || c == ':' || c == ';' || c == '!' || c
        == '?' || c == ')' || c == '`'
}

fn lies_in_plain_address(s: &[char], i: usize) -> (r: bool)
    requires
        i <= s@.len(),
    ensures
        r == in_plain_address(s@, i as int),
{
    let n: usize = s.len();
    let mut k: usize = i;
    let mut found: bool = false;
    while k > 0 && !found
        invariant
            k <= s@.len(),
            scheme_before(s@, i as int) == (found || scheme_before(s@, k as int)),
        decreases k + if found { 0int } else { 1int },
    {
        if stops(s[k - 1]) {
            return false;
        }
        if k >= 3 && s[k - 3] == ':' && s[k - 2] == '/' && s[k - 1] == '/' {
            found = true;
        } else {
            k = k - 1;
        }
    }
    if !found {
        return false;
    }
    let mut j: usize = i;
    while j < n
        invariant
            n == s@.len(),
            i <= j <= n,
            scheme_before(s@, i as int),
            trails(s@, i as int) == trails(s@, j as int),
        decreases n - j,
    {
        if stops(s[j]) {
            return false;
        }
        if !marks_end(s[j]) {
            return true;
        }
        j = j + 1;
    }
    false
}

// ---------------------------------------------------------------- tags

/// A tag is opened before `i`: a `<` with a letter or a slash behind it, and no `>` between.
pub open spec fn tag_open(s: Seq<char>, i: int) -> bool
    decreases i,
{
    if i <= 0 || i >= s.len() || s[i - 1] == '>' {
        false
    } else if s[i - 1] == '<' {
        'a' <= s[i] <= 'z' || 'A' <= s[i] <= 'Z' || s[i] == '/'
    } else {
        tag_open(s, i - 1)
    }
}

/// A `>` follows from `i` on, and no other angle bracket or square bracket before it.
pub open spec fn tag_closed(s: Seq<char>, i: int) -> bool
    decreases s.len() - i,
{
    if i < 0 || i >= s.len() || s[i] == '<' || s[i] == '[' || s[i] == ']' {
        false
    } else {
        s[i] == '>' || tag_closed(s, i + 1)
    }
}

/// The character at `i` lies in an HTML tag.
pub open spec fn in_tag(s: Seq<char>, i: int) -> bool {
    tag_open(s, i) && tag_closed(s, i)
}

fn lies_in_tag(s: &[char], i: usize) -> (r: bool)
    requires
        i <= s@.len(),
    ensures
        r == in_tag(s@, i as int),
{
    let n: usize = s.len();
    let mut j: usize = i;
    let mut closed: bool = false;
    while j < n && !closed
        invariant
            n == s@.len(),
            i <= j <= n,
            tag_closed(s@, i as int) == (closed || tag_closed(s@, j as int)),
        decreases n - j + if closed { 0int } else { 1int },
    {
        let c = s[j];
        if c == '<' || c == '[' || c == ']' {
            return false;
        }
        if c == '>' {
            closed = true;
        } else {
            j = j + 1;
        }
    }
    if !closed || i >= n {
        return false;
    }
    let mut k: usize = i;
    while k > 0
        invariant
            n == s@.len(),
            k <= i < n,
            tag_closed(s@, i as int),
            tag_open(s@, i as int) == tag_open(s@, k as int),
        decreases k,
    {
        if s[k - 1] == '>' {
            return false;
        }
        if s[k - 1] == '<' {
            let c = s[k];
            return ('a' <= c && c <= 'z') || ('A' <= c && c <= 'Z') || c == '/';
        }
        k = k - 1;
    }
    false
}

// ---------------------------------------------------------------- escapes

/// The character at `i` is escaped: a backslash stands before it that is not escaped itself.
pub open spec fn escaped(s: Seq<char>, i: int) -> bool
    decreases i,
{
    0 < i <= s.len() && s[i - 1] == '\\' && !escaped(s, i - 1)
}

fn is_escaped(s: &[char], i: usize) -> (r: bool)
    requires
        i <= s@.len(),
    ensures
        r == escaped(s@, i as int),
{
    let mut k: usize = i;
    let mut odd: bool = false;
    while k > 0 && s[k - 1] == '\\'
        invariant
            k <= s@.len(),
            escaped(s@, i as int) == (odd != escaped(s@, k as int)),
        decreases k,
    {
        odd = !odd;
        k = k - 1;
    }
    odd
}

// ---------------------------------------------------------------- all of it

/// The character at `i` is taken as it is.
pub open spec fn literal(s: Seq<char>, i: int) -> bool {
    in_code(s, i) || in_address(s, i) || in_plain_address(s, i) || in_tag(s, i) || escaped(s, i)
}

/// Whether the character at `i` is taken as it is.
pub fn is_literal(s: &[char], i: usize) -> (r: bool)
    requires
        i <= s@.len(),
    ensures
        r == literal(s@, i as int),
{
    is_escaped(s, i) || lies_in_address(s, i) || lies_in_plain_address(s, i) || lies_in_tag(s, i)
        || lies_in_code(s, i)
}

} // verus!
