//! Text as sequences of characters: trimming, splitting, joining and searching.
//!
//! The specification functions speak of `Seq<char>`, which is the view of both
//! `str` and `String`; the executable functions work on character slices.

use vstd::prelude::*;
use vstd::slice::slice_subrange;

verus! {

/// `String::push` puts one character behind the text.
pub assume_specification[ String::push ](s: &mut String, c: char)
    ensures
        final(s)@ == old(s)@.push(c),
;

/// The characters of a list of strings.
pub open spec fn texts(v: Seq<String>) -> Seq<Seq<char>> {
    v.map_values(|s: String| s@)
}

// ---------------------------------------------------------------- characters

/// Unicode's `White_Space` property.
pub open spec fn is_space(c: char) -> bool {
    ||| '\u{9}' <= c <= '\u{d}'
    ||| c == ' '
    ||| c == '\u{85}'
    ||| c == '\u{a0}'
    ||| c == '\u{1680}'
    ||| '\u{2000}' <= c <= '\u{200a}'
    ||| c == '\u{2028}'
    ||| c == '\u{2029}'
    ||| c == '\u{202f}'
    ||| c == '\u{205f}'
    ||| c == '\u{3000}'
}

/// Whether `c` is white space.
pub fn space(c: char) -> (r: bool)
    ensures
        r == is_space(c),
{
    ('\u{9}' <= c && c <= '\u{d}') || c == ' ' || c == '\u{85}' || c == '\u{a0}' || c == '\u{1680}'
        || ('\u{2000}' <= c && c <= '\u{200a}') || c == '\u{2028}' || c == '\u{2029}' || c
        == '\u{202f}' || c == '\u{205f}' || c == '\u{3000}'
}

/// An ASCII digit.
pub open spec fn is_digit(c: char) -> bool {
    '0' <= c <= '9'
}

/// An ASCII letter or digit.
pub open spec fn is_alphanumeric(c: char) -> bool {
    is_digit(c) || 'a' <= c <= 'z' || 'A' <= c <= 'Z'
}

/// Whether `c` is an ASCII digit.
pub fn digit(c: char) -> (r: bool)
    ensures
        r == is_digit(c),
{
    '0' <= c && c <= '9'
}

/// Whether `c` is an ASCII letter or digit.
pub fn alphanumeric(c: char) -> (r: bool)
    ensures
        r == is_alphanumeric(c),
{
    digit(c) || ('a' <= c && c <= 'z') || ('A' <= c && c <= 'Z')
}

/// The ASCII lower-case form of a character.
pub open spec fn ascii_lower(c: char) -> char {
    if 'A' <= c <= 'Z' {
        (c as u32 + 32) as char
    } else {
        c
    }
}

// --------------------------------------------------- strings and characters

/// The characters of a string.
pub fn chars_of(s: &str) -> (r: Vec<char>)
    ensures
        r@ == s@,
{
    let mut out: Vec<char> = Vec::new();
    for c in it: s.chars()
        invariant
            it.seq() == s@,
            out@ == s@.take(it.index() as int),
    {
        out.push(c);
    }
    out
}

/// The string made of the given characters.
pub fn string_of(s: &[char]) -> (r: String)
    ensures
        r@ == s@,
{
    let mut out = String::new();
    let mut i: usize = 0;
    while i < s.len()
        invariant
            i <= s.len(),
            out@ == s@.take(i as int),
        decreases s.len() - i,
    {
        out.push(s[i]);
        i += 1;
    }
    out
}

// ---------------------------------------------------------------- trimming

/// The text without its leading white space.
pub open spec fn trimmed_start(s: Seq<char>) -> Seq<char>
    decreases s.len(),
{
    if s.len() > 0 && is_space(s[0]) {
        trimmed_start(s.skip(1))
    } else {
        s
    }
}

/// The text without its trailing white space.
pub open spec fn trimmed_end(s: Seq<char>) -> Seq<char>
    decreases s.len(),
{
    if s.len() > 0 && is_space(s.last()) {
        trimmed_end(s.drop_last())
    } else {
        s
    }
}

/// The text without white space at either end.
pub open spec fn trimmed(s: Seq<char>) -> Seq<char> {
    trimmed_end(trimmed_start(s))
}

/// Whether the text holds nothing but white space.
pub open spec fn is_blank(s: Seq<char>) -> bool {
    trimmed(s).len() == 0
}

/// The text without the leading characters that equal `a` or `b`.
pub open spec fn without_leading(s: Seq<char>, a: char, b: char) -> Seq<char>
    decreases s.len(),
{
    if s.len() > 0 && (s[0] == a || s[0] == b) {
        without_leading(s.skip(1), a, b)
    } else {
        s
    }
}

/// The text without the trailing characters that equal `c`.
pub open spec fn without_trailing(s: Seq<char>, c: char) -> Seq<char>
    decreases s.len(),
{
    if s.len() > 0 && s.last() == c {
        without_trailing(s.drop_last(), c)
    } else {
        s
    }
}

/// Drops leading white space.
pub fn trim_start(s: &[char]) -> (r: &[char])
    ensures
        r@ == trimmed_start(s@),
        r@.len() <= s@.len(),
{
    let mut i: usize = 0;
    assert(s@.skip(0) == s@);
    while i < s.len() && space(s[i])
        invariant
            i <= s.len(),
            trimmed_start(s@.skip(i as int)) == trimmed_start(s@),
        decreases s.len() - i,
    {
        assert(s@.skip(i as int).skip(1) == s@.skip(i + 1));
        i += 1;
    }
    assert(s@.subrange(i as int, s@.len() as int) == s@.skip(i as int));
    slice_subrange(s, i, s.len())
}

/// Drops trailing white space.
pub fn trim_end(s: &[char]) -> (r: &[char])
    ensures
        r@ == trimmed_end(s@),
        r@.len() <= s@.len(),
{
    let mut n: usize = s.len();
    assert(s@.take(n as int) == s@);
    while n > 0 && space(s[n - 1])
        invariant
            n <= s.len(),
            trimmed_end(s@.take(n as int)) == trimmed_end(s@),
        decreases n,
    {
        assert(s@.take(n as int).drop_last() == s@.take(n - 1));
        n -= 1;
    }
    assert(s@.subrange(0, n as int) == s@.take(n as int));
    slice_subrange(s, 0, n)
}

/// Drops white space at both ends.
pub fn trim(s: &[char]) -> (r: &[char])
    ensures
        r@ == trimmed(s@),
        r@.len() <= s@.len(),
{
    trim_end(trim_start(s))
}

/// Whether nothing but white space is left of the string.
pub fn blank(s: &str) -> (r: bool)
    ensures
        r == is_blank(s@),
{
    let v: Vec<char> = chars_of(s);
    trim(v.as_slice()).len() == 0
}

/// The trimmed string.
pub fn trim_string(s: &str) -> (r: String)
    ensures
        r@ == trimmed(s@),
{
    let v: Vec<char> = chars_of(s);
    string_of(trim(v.as_slice()))
}

/// Drops the leading characters that equal `a` or `b`.
pub fn drop_leading(s: &[char], a: char, b: char) -> (r: &[char])
    ensures
        r@ == without_leading(s@, a, b),
{
    let mut i: usize = 0;
    assert(s@.skip(0) == s@);
    while i < s.len() && (s[i] == a || s[i] == b)
        invariant
            i <= s.len(),
            without_leading(s@.skip(i as int), a, b) == without_leading(s@, a, b),
        decreases s.len() - i,
    {
        assert(s@.skip(i as int).skip(1) == s@.skip(i + 1));
        i += 1;
    }
    assert(s@.subrange(i as int, s@.len() as int) == s@.skip(i as int));
    slice_subrange(s, i, s.len())
}

/// Drops the trailing characters that equal `c`.
pub fn drop_trailing(s: &[char], c: char) -> (r: &[char])
    ensures
        r@ == without_trailing(s@, c),
{
    let mut n: usize = s.len();
    assert(s@.take(n as int) == s@);
    while n > 0 && s[n - 1] == c
        invariant
            n <= s.len(),
            without_trailing(s@.take(n as int), c) == without_trailing(s@, c),
        decreases n,
    {
        assert(s@.take(n as int).drop_last() == s@.take(n - 1));
        n -= 1;
    }
    assert(s@.subrange(0, n as int) == s@.take(n as int));
    slice_subrange(s, 0, n)
}

// ------------------------------------------------------ prefixes and search

/// Whether `s` begins with `p`.
pub open spec fn begins(s: Seq<char>, p: Seq<char>) -> bool {
    p.len() <= s.len() && s.take(p.len() as int) == p
}

/// Whether `s` ends with `p`.
pub open spec fn ends(s: Seq<char>, p: Seq<char>) -> bool {
    p.len() <= s.len() && s.skip(s.len() - p.len()) == p
}

/// Whether `p` stands in `s` at position `i`.
pub open spec fn stands_at(s: Seq<char>, p: Seq<char>, i: int) -> bool {
    0 <= i && i + p.len() <= s.len() && s.subrange(i, i + p.len()) == p
}

/// Whether `p` stands somewhere in `s`.
pub open spec fn has(s: Seq<char>, p: Seq<char>) -> bool {
    exists|i: int| stands_at(s, p, i)
}

/// Whether `s` begins with the string `p`.
pub fn starts_with(s: &[char], p: &str) -> (r: bool)
    ensures
        r == begins(s@, p@),
{
    let v: Vec<char> = chars_of(p);
    starts_with_chars(s, v.as_slice())
}

/// Whether `s` begins with the characters `p`.
pub fn starts_with_chars(s: &[char], p: &[char]) -> (r: bool)
    ensures
        r == begins(s@, p@),
{
    if p.len() > s.len() {
        return false;
    }
    let mut i: usize = 0;
    while i < p.len()
        invariant
            i <= p.len() <= s.len(),
            forall|j: int| 0 <= j < i ==> s@[j] == p@[j],
        decreases p.len() - i,
    {
        if s[i] != p[i] {
            assert(s@.take(p@.len() as int)[i as int] != p@[i as int]);
            return false;
        }
        i += 1;
    }
    assert(s@.take(p@.len() as int) == p@);
    true
}

/// Whether `s` ends with the string `p`.
pub fn ends_with(s: &[char], p: &str) -> (r: bool)
    ensures
        r == ends(s@, p@),
{
    let v: Vec<char> = chars_of(p);
    if v.len() > s.len() {
        return false;
    }
    let at: usize = s.len() - v.len();
    let tail = slice_subrange(s, at, s.len());
    assert(tail@ == s@.skip(at as int));
    assert(tail@.take(p@.len() as int) == tail@);
    starts_with_chars(tail, v.as_slice())
}

/// What follows the prefix `p`, when `s` begins with it.
pub fn strip_prefix<'a>(s: &'a [char], p: &str) -> (r: Option<&'a [char]>)
    ensures
        match r {
            Some(rest) => begins(s@, p@) && rest@ == s@.skip(p@.len() as int),
            None => !begins(s@, p@),
        },
{
    let v: Vec<char> = chars_of(p);
    if starts_with_chars(s, v.as_slice()) {
        let rest = slice_subrange(s, v.len(), s.len());
        assert(rest@ == s@.skip(p@.len() as int));
        Some(rest)
    } else {
        None
    }
}

/// Whether the characters `p` stand somewhere in `s`.
pub fn contains_chars(s: &[char], p: &[char]) -> (r: bool)
    ensures
        r == has(s@, p@),
{
    if p.len() > s.len() {
        return false;
    }
    let mut i: usize = 0;
    while i <= s.len() - p.len()
        invariant_except_break
            i <= s.len() - p.len(),
            forall|j: int| 0 <= j < i ==> !stands_at(s@, p@, j),
        invariant
            p.len() <= s.len(),
        ensures
            forall|j: int| 0 <= j <= s.len() - p.len() ==> !stands_at(s@, p@, j),
        decreases s.len() - i,
    {
        let tail = slice_subrange(s, i, s.len());
        assert(tail@.take(p@.len() as int) == s@.subrange(i as int, i + p@.len()));
        if starts_with_chars(tail, p) {
            assert(stands_at(s@, p@, i as int));
            return true;
        }
        if i == s.len() - p.len() {
            break;
        }
        i += 1;
    }
    assert(forall|j: int| !stands_at(s@, p@, j));
    false
}

/// Whether the string `p` stands somewhere in `s`.
pub fn contains(s: &[char], p: &str) -> (r: bool)
    ensures
        r == has(s@, p@),
{
    let v: Vec<char> = chars_of(p);
    contains_chars(s, v.as_slice())
}

/// Whether the characters are those of the string.
pub fn same_text(s: &[char], p: &str) -> (r: bool)
    ensures
        r == (s@ == p@),
{
    let v: Vec<char> = chars_of(p);
    if v.len() != s.len() {
        return false;
    }
    let r: bool = starts_with_chars(s, v.as_slice());
    assert(s@.take(p@.len() as int) == s@);
    r
}

/// Whether two strings hold the same text.
pub fn same_string(a: &str, b: &str) -> (r: bool)
    ensures
        r == (a@ == b@),
{
    let v: Vec<char> = chars_of(a);
    same_text(v.as_slice(), b)
}

/// Whether two texts are equal but for the case of ASCII letters.
pub open spec fn same_but_case(a: Seq<char>, b: Seq<char>) -> bool {
    a.len() == b.len() && forall|i: int|
        0 <= i < a.len() ==> ascii_lower(#[trigger] a[i]) == ascii_lower(b[i])
}

/// The ASCII lower-case form of a character.
pub fn lower_ascii(c: char) -> (r: char)
    ensures
        r == ascii_lower(c),
{
    if 'A' <= c && c <= 'Z' {
        let n: u8 = c as u8;
        (n + 32) as char
    } else {
        c
    }
}

/// Whether two strings are equal but for the case of ASCII letters.
pub fn eq_ignore_case(a: &str, b: &str) -> (r: bool)
    ensures
        r == same_but_case(a@, b@),
{
    let x: Vec<char> = chars_of(a);
    let y: Vec<char> = chars_of(b);
    if x.len() != y.len() {
        return false;
    }
    let mut i: usize = 0;
    while i < x.len()
        invariant
            i <= x.len(),
            x.len() == y.len(),
            x@ == a@,
            y@ == b@,
            forall|j: int| 0 <= j < i ==> ascii_lower(#[trigger] x@[j]) == ascii_lower(y@[j]),
        decreases x.len() - i,
    {
        if lower_ascii(x[i]) != lower_ascii(y[i]) {
            return false;
        }
        i += 1;
    }
    true
}

// ------------------------------------------------------ splitting, joining

/// The pieces of `s` between the separators; one more than there are separators.
pub open spec fn split_on(s: Seq<char>, sep: char) -> Seq<Seq<char>>
    decreases s.len(),
{
    if s.len() == 0 {
        seq![Seq::empty()]
    } else {
        let before = split_on(s.drop_last(), sep);
        if s.last() == sep {
            before.push(Seq::empty())
        } else {
            before.drop_last().push(before.last().push(s.last()))
        }
    }
}

/// The pieces in order, with `sep` between each two.
pub open spec fn joined(parts: Seq<Seq<char>>, sep: Seq<char>) -> Seq<char>
    decreases parts.len(),
{
    if parts.len() == 0 {
        Seq::empty()
    } else if parts.len() == 1 {
        parts[0]
    } else {
        joined(parts.drop_last(), sep) + sep + parts.last()
    }
}

/// A split has at least one piece, and no piece holds the separator.
pub proof fn lemma_split_pieces(s: Seq<char>, sep: char)
    ensures
        split_on(s, sep).len() >= 1,
        forall|i: int|
            0 <= i < split_on(s, sep).len() ==> !(#[trigger] split_on(s, sep)[i]).contains(sep),
    decreases s.len(),
{
    if s.len() > 0 {
        lemma_split_pieces(s.drop_last(), sep);
        let before = split_on(s.drop_last(), sep);
        assert(!before.last().contains(sep));
        if s.last() != sep {
            let grown = before.last().push(s.last());
            assert(!grown.contains(sep)) by {
                if grown.contains(sep) {
                    let k = choose|k: int| 0 <= k < grown.len() && grown[k] == sep;
                    assert(before.last()[k] == sep);
                }
            }
        }
    }
}

/// Joining one more piece.
pub proof fn lemma_joined_push(parts: Seq<Seq<char>>, x: Seq<char>, sep: Seq<char>)
    ensures
        joined(parts.push(x), sep) == if parts.len() == 0 {
            x
        } else {
            joined(parts, sep) + sep + x
        },
{
    assert(parts.push(x).drop_last() == parts);
}

/// Joining the pieces of a split with the separator gives the text back.
pub proof fn lemma_split_joined(s: Seq<char>, sep: char)
    ensures
        joined(split_on(s, sep), seq![sep]) == s,
    decreases s.len(),
{
    if s.len() > 0 {
        let before = split_on(s.drop_last(), sep);
        lemma_split_joined(s.drop_last(), sep);
        lemma_split_pieces(s.drop_last(), sep);
        if s.last() == sep {
            lemma_joined_push(before, Seq::empty(), seq![sep]);
            assert(s == s.drop_last() + seq![sep] + Seq::<char>::empty());
        } else {
            let head = before.drop_last();
            assert(before == head.push(before.last()));
            lemma_joined_push(head, before.last(), seq![sep]);
            lemma_joined_push(head, before.last().push(s.last()), seq![sep]);
            assert(joined(split_on(s, sep), seq![sep]) == s.drop_last().push(s.last()));
            assert(s.drop_last().push(s.last()) == s);
        }
    }
}

/// Splitting `a` followed by the separator and `b`.
pub proof fn lemma_split_concat(a: Seq<char>, b: Seq<char>, sep: char)
    ensures
        split_on(a + seq![sep] + b, sep) == split_on(a, sep) + split_on(b, sep),
    decreases b.len(),
{
    let s = a + seq![sep] + b;
    lemma_split_pieces(a, sep);
    lemma_split_pieces(b, sep);
    if b.len() == 0 {
        assert(s.drop_last() == a);
        assert(split_on(s, sep) == split_on(a, sep) + split_on(b, sep));
    } else {
        lemma_split_pieces(b.drop_last(), sep);
        assert(s.drop_last() == a + seq![sep] + b.drop_last());
        lemma_split_concat(a, b.drop_last(), sep);
        let before = split_on(a, sep) + split_on(b.drop_last(), sep);
        assert(before.last() == split_on(b.drop_last(), sep).last());
        assert(before.drop_last() == split_on(a, sep) + split_on(b.drop_last(), sep).drop_last());
        assert(split_on(s, sep) == split_on(a, sep) + split_on(b, sep));
    }
}

/// A text without the separator is its own only piece.
pub proof fn lemma_split_whole(s: Seq<char>, sep: char)
    requires
        !s.contains(sep),
    ensures
        split_on(s, sep) == seq![s],
    decreases s.len(),
{
    if s.len() > 0 {
        assert(s.contains(s.last()));
        assert(!s.drop_last().contains(sep)) by {
            if s.drop_last().contains(sep) {
                let k = choose|k: int| 0 <= k < s.drop_last().len() && s.drop_last()[k] == sep;
                assert(s[k] == sep);
            }
        }
        lemma_split_whole(s.drop_last(), sep);
        assert(s.drop_last().push(s.last()) == s);
        assert(split_on(s, sep) == seq![s]);
    } else {
        assert(s == Seq::<char>::empty());
    }
}

/// Pieces without the separator survive being joined and split again.
pub proof fn lemma_joined_split(parts: Seq<Seq<char>>, sep: char)
    requires
        parts.len() >= 1,
        forall|i: int| 0 <= i < parts.len() ==> !(#[trigger] parts[i]).contains(sep),
    ensures
        split_on(joined(parts, seq![sep]), sep) == parts,
    decreases parts.len(),
{
    lemma_split_whole(parts.last(), sep);
    if parts.len() == 1 {
        assert(parts == seq![parts.last()]);
    } else {
        let head = parts.drop_last();
        assert forall|i: int| 0 <= i < head.len() implies !(#[trigger] head[i]).contains(sep) by {
            assert(head[i] == parts[i]);
        }
        lemma_joined_split(head, sep);
        lemma_split_concat(joined(head, seq![sep]), parts.last(), sep);
        assert(head + seq![parts.last()] == parts);
    }
}

/// Splits a text at every `sep`.
pub fn split(s: &[char], sep: char) -> (r: Vec<String>)
    ensures
        texts(r@) == split_on(s@, sep),
        r@.len() >= 1,
{
    let mut out: Vec<String> = Vec::new();
    let mut cur = String::new();
    let mut i: usize = 0;
    assert(s@.take(0) == Seq::<char>::empty());
    assert(texts(out@).push(cur@) == seq![Seq::<char>::empty()]);
    while i < s.len()
        invariant
            i <= s.len(),
            texts(out@).push(cur@) == split_on(s@.take(i as int), sep),
        decreases s.len() - i,
    {
        let c: char = s[i];
        let ghost was = texts(out@).push(cur@);
        assert(s@.take(i + 1).drop_last() == s@.take(i as int));
        assert(was.drop_last() == texts(out@));
        if c == sep {
            let ghost done = out@;
            out.push(cur);
            assert(texts(out@) == texts(done).push(cur@));
            cur = String::new();
        } else {
            cur.push(c);
        }
        i += 1;
    }
    let ghost done = out@;
    out.push(cur);
    assert(texts(out@) == texts(done).push(cur@));
    assert(s@.take(i as int) == s@);
    out
}

/// Joins strings with `sep` between each two.
pub fn join(parts: &[String], sep: &str) -> (r: String)
    ensures
        r@ == joined(texts(parts@), sep@),
{
    let mut out = String::new();
    let mut i: usize = 0;
    while i < parts.len()
        invariant
            i <= parts.len(),
            out@ == joined(texts(parts@).take(i as int), sep@),
        decreases parts.len() - i,
    {
        let ghost head = texts(parts@).take(i as int);
        proof {
            lemma_joined_push(head, parts@[i as int]@, sep@);
            assert(head.push(parts@[i as int]@) == texts(parts@).take(i + 1));
        }
        if i > 0 {
            out.append(sep);
        }
        out.append(parts[i].as_str());
        i += 1;
    }
    assert(texts(parts@).take(i as int) == texts(parts@));
    out
}

// ----------------------------------------------------------- line endings

/// The text with every line ending written as a single newline: a carriage
/// return counts as a newline, and a newline right behind one adds nothing.
pub open spec fn normalized(s: Seq<char>) -> Seq<char>
    decreases s.len(),
{
    if s.len() == 0 {
        Seq::empty()
    } else {
        let before = normalized(s.drop_last());
        if s.last() == '\r' {
            before.push('\n')
        } else if s.last() == '\n' && s.len() >= 2 && s[s.len() - 2] == '\r' {
            before
        } else {
            before.push(s.last())
        }
    }
}

/// No carriage return is left.
pub proof fn lemma_normalized_clean(s: Seq<char>)
    ensures
        !normalized(s).contains('\r'),
    decreases s.len(),
{
    if s.len() > 0 {
        lemma_normalized_clean(s.drop_last());
        let before = normalized(s.drop_last());
        let r = normalized(s);
        if r.contains('\r') {
            let k = choose|k: int| 0 <= k < r.len() && r[k] == '\r';
            assert(k < before.len() ==> before[k] == '\r');
        }
    }
}

/// A text without carriage returns is left as it is.
pub proof fn lemma_normalized_same(s: Seq<char>)
    requires
        !s.contains('\r'),
    ensures
        normalized(s) == s,
    decreases s.len(),
{
    if s.len() > 0 {
        assert(s[s.len() - 1] != '\r');
        assert(s.len() >= 2 ==> s[s.len() - 2] != '\r');
        assert(!s.drop_last().contains('\r')) by {
            if s.drop_last().contains('\r') {
                let k = choose|k: int| 0 <= k < s.drop_last().len() && s.drop_last()[k] == '\r';
                assert(s[k] == '\r');
            }
        }
        lemma_normalized_same(s.drop_last());
        assert(s.drop_last().push(s.last()) == s);
    } else {
        assert(s == Seq::<char>::empty());
    }
}

/// Writes every line ending as a single newline.
pub fn normalize(text: &str) -> (r: Vec<char>)
    ensures
        r@ == normalized(text@),
{
    let s: Vec<char> = chars_of(text);
    let mut out: Vec<char> = Vec::new();
    let mut i: usize = 0;
    while i < s.len()
        invariant
            i <= s.len(),
            s@ == text@,
            out@ == normalized(s@.take(i as int)),
        decreases s.len() - i,
    {
        let c: char = s[i];
        assert(s@.take(i + 1).drop_last() == s@.take(i as int));
        if c == '\r' {
            out.push('\n');
        } else if c == '\n' && i >= 1 && s[i - 1] == '\r' {
        } else {
            out.push(c);
        }
        i += 1;
    }
    assert(s@.take(i as int) == s@);
    out
}

/// A line without a carriage return at its end.
pub open spec fn without_return(s: Seq<char>) -> Seq<char> {
    if s.len() > 0 && s.last() == '\r' {
        s.drop_last()
    } else {
        s
    }
}

/// The lines of a text. A line ends with a newline, before which one carriage
/// return is dropped; a last line needs no newline, and an empty one is none.
pub open spec fn lines_of(s: Seq<char>) -> Seq<Seq<char>> {
    let parts = split_on(s, '\n');
    let ended = parts.drop_last().map_values(|l: Seq<char>| without_return(l));
    if parts.last().len() == 0 {
        ended
    } else {
        ended.push(parts.last())
    }
}

/// Splits a text into its lines.
pub fn lines(text: &str) -> (r: Vec<String>)
    ensures
        texts(r@) == lines_of(text@),
{
    let chars: Vec<char> = chars_of(text);
    let mut parts: Vec<String> = split(chars.as_slice(), '\n');
    let ghost all = texts(parts@);
    let last: Option<String> = parts.pop();
    let mut out: Vec<String> = Vec::new();
    let mut i: usize = 0;
    let ghost ended = all.drop_last().map_values(|l: Seq<char>| without_return(l));
    assert(texts(parts@) == all.drop_last());
    while i < parts.len()
        invariant
            i <= parts.len(),
            texts(parts@) == all.drop_last(),
            ended == all.drop_last().map_values(|l: Seq<char>| without_return(l)),
            texts(out@) == ended.take(i as int),
        decreases parts.len() - i,
    {
        let line: Vec<char> = chars_of(parts[i].as_str());
        assert(texts(parts@)[i as int] == line@);
        let n: usize = line.len();
        let ghost done = out@;
        let kept: String = if n > 0 && line[n - 1] == '\r' {
            assert(line@.subrange(0, n - 1) == line@.drop_last());
            string_of(slice_subrange(line.as_slice(), 0, n - 1))
        } else {
            string_of(line.as_slice())
        };
        assert(kept@ == ended[i as int]);
        out.push(kept);
        assert(texts(out@) == texts(done).push(kept@));
        assert(ended.take(i + 1) == ended.take(i as int).push(ended[i as int]));
        i += 1;
    }
    assert(ended.take(i as int) == ended);
    match last {
        Some(l) => {
            assert(l@ == all.last());
            if !l.as_str().is_empty() {
                let ghost done = out@;
                out.push(l);
                assert(texts(out@) == texts(done).push(l@));
            }
        },
        None => {},
    }
    out
}

// -------------------------------------------------------------------- words

/// The runs of characters between white space.
pub open spec fn words(s: Seq<char>) -> Seq<Seq<char>>
    decreases s.len(),
{
    if s.len() == 0 {
        Seq::empty()
    } else {
        let before = words(s.drop_last());
        if is_space(s.last()) {
            before
        } else if s.len() >= 2 && !is_space(s[s.len() - 2]) {
            before.drop_last().push(before.last().push(s.last()))
        } else {
            before.push(seq![s.last()])
        }
    }
}

/// A text that ends in no white space has a last word. Words are not empty and hold no white
/// space, and with single spaces between them they are no longer than the text.
pub proof fn lemma_words(s: Seq<char>)
    ensures
        s.len() > 0 && !is_space(s.last()) ==> words(s).len() >= 1,
        forall|i: int| 0 <= i < words(s).len() ==> is_word(#[trigger] words(s)[i]),
        joined(words(s), seq![' ']).len() <= s.len(),
        s.len() > 0 && is_space(s.last()) && words(s).len() > 0 ==> joined(
            words(s),
            seq![' '],
        ).len() < s.len(),
    decreases s.len(),
{
    if s.len() > 0 {
        let front = s.drop_last();
        let before = words(front);
        lemma_words(front);
        if !is_space(s.last()) {
            let all = words(s);
            if s.len() >= 2 && !is_space(s[s.len() - 2]) {
                let head = before.drop_last();
                let grown = before.last().push(s.last());
                assert(before == head.push(before.last()));
                lemma_joined_push(head, before.last(), seq![' ']);
                lemma_joined_push(head, grown, seq![' ']);
                assert forall|i: int| 0 <= i < all.len() implies is_word(#[trigger] all[i]) by {
                    if i < head.len() {
                        assert(all[i] == before[i]);
                    } else {
                        assert(is_word(before[before.len() - 1]));
                        assert(all[i] == grown);
                    }
                }
            } else {
                lemma_joined_push(before, seq![s.last()], seq![' ']);
                assert forall|i: int| 0 <= i < all.len() implies is_word(#[trigger] all[i]) by {
                    if i < before.len() {
                        assert(all[i] == before[i]);
                    }
                }
            }
        }
    }
}

/// Whether a text is not empty and holds no white space.
pub open spec fn is_word(w: Seq<char>) -> bool {
    w.len() > 0 && forall|i: int| 0 <= i < w.len() ==> !is_space(#[trigger] w[i])
}

/// Words hold no character that the text does not hold.
pub proof fn lemma_words_lack(s: Seq<char>, c: char)
    requires
        !s.contains(c),
    ensures
        forall|i: int| 0 <= i < words(s).len() ==> !(#[trigger] words(s)[i]).contains(c),
    decreases s.len(),
{
    if s.len() > 0 {
        let front = s.drop_last();
        let before = words(front);
        assert(front == s.subrange(0, s.len() - 1));
        lemma_part_lacks(s, 0, s.len() - 1, c);
        lemma_words_lack(front, c);
        lemma_words(front);
        assert(s.contains(s.last()));
        if !is_space(s.last()) {
            let all = words(s);
            let one = seq![s.last()];
            assert(!one.contains(c));
            if s.len() >= 2 && !is_space(s[s.len() - 2]) {
                lemma_concat_lacks(before.last(), one, c);
                assert(before.last() + one == before.last().push(s.last()));
            }
            assert forall|i: int| 0 <= i < all.len() implies !(#[trigger] all[i]).contains(c) by {
                if i < all.len() - 1 {
                    assert(all[i] == before[i]);
                }
            }
        }
    }
}

/// Words with single spaces between them have no white space at either end.
pub proof fn lemma_words_joined(parts: Seq<Seq<char>>)
    requires
        parts.len() > 0,
        forall|i: int| 0 <= i < parts.len() ==> is_word(#[trigger] parts[i]),
    ensures
        ({
            let line = joined(parts, seq![' ']);
            &&& line.len() > 0
            &&& !is_space(line[0])
            &&& !is_space(line.last())
            &&& trimmed(line) == line
        }),
    decreases parts.len(),
{
    let line = joined(parts, seq![' ']);
    let last = parts.last();
    assert(is_word(parts[parts.len() - 1]));
    if parts.len() > 1 {
        let head = parts.drop_last();
        assert forall|i: int| 0 <= i < head.len() implies is_word(#[trigger] head[i]) by {
            assert(head[i] == parts[i]);
        }
        lemma_words_joined(head);
        assert(line[0] == joined(head, seq![' '])[0]);
    }
    assert(line.last() == last.last());
}

/// Splits a text at white space.
pub fn split_words(s: &[char]) -> (r: Vec<String>)
    ensures
        texts(r@) == words(s@),
{
    let mut out: Vec<String> = Vec::new();
    let mut cur = String::new();
    let mut i: usize = 0;
    assert(texts(out@) == words(s@.take(0)));
    while i < s.len()
        invariant
            i <= s.len(),
            cur@.len() > 0 <==> (i > 0 && !is_space(s@[i - 1])),
            words(s@.take(i as int)) == if cur@.len() > 0 {
                texts(out@).push(cur@)
            } else {
                texts(out@)
            },
        decreases s.len() - i,
    {
        let c: char = s[i];
        assert(s@.take(i + 1).drop_last() == s@.take(i as int));
        if space(c) {
            if !cur.as_str().is_empty() {
                let ghost done = out@;
                out.push(cur);
                assert(texts(out@) == texts(done).push(cur@));
                cur = String::new();
            }
        } else {
            let ghost was = cur@;
            assert(was.len() > 0 ==> texts(out@).push(was).drop_last() == texts(out@));
            cur.push(c);
            assert(was.len() == 0 ==> cur@ == seq![c]);
            assert(s@.take(i + 1).len() >= 2 ==> s@.take(i + 1)[i - 1] == s@[i - 1]);
        }
        i += 1;
    }
    assert(s@.take(i as int) == s@);
    if !cur.as_str().is_empty() {
        let ghost done = out@;
        out.push(cur);
        assert(texts(out@) == texts(done).push(cur@));
    }
    out
}

// --------------------------------------------------------------- lower case

/// What `str::to_lowercase` makes of a text. It follows Unicode's tables, which
/// are not written out here.
pub uninterp spec fn lowercased(s: Seq<char>) -> Seq<char>;

/// Whether a character is an ASCII one, or a kana or Han character or a mark that goes with
/// them: these know no case.
pub open spec fn is_plain(c: char) -> bool {
    ||| c <= '\u{7f}'
    ||| '\u{3000}' <= c <= '\u{30ff}'
    ||| '\u{4e00}' <= c <= '\u{9fff}'
}

/// Whether a text is made of such characters alone.
pub open spec fn all_plain(s: Seq<char>) -> bool {
    forall|i: int| 0 <= i < s.len() ==> is_plain(#[trigger] s[i])
}

/// The text with each of `A` to `Z` replaced by its small letter.
pub open spec fn small(s: Seq<char>) -> Seq<char> {
    s.map_values(|c: char| ascii_lower(c))
}

/// `str::to_lowercase`. Claimed of it: the result depends on the text alone; as far as the
/// text begins with plain characters, the result begins with them, each of `A` to `Z`
/// replaced by its small letter, and where the text holds no others, that is all of it; and
/// none of `A` to `Z` is in the result. Of other characters no more is said.
#[verifier::external_body]
pub(crate) fn lowercase(s: &str) -> (r: String)
    ensures
        r@ == lowercased(s@),
        all_plain(s@) ==> r@ == small(s@),
        forall|k: int|
            0 <= k <= s@.len() && all_plain(#[trigger] s@.take(k)) ==> k <= r@.len() && r@.take(k)
                == small(s@.take(k)),
        forall|i: int| 0 <= i < r@.len() ==> !('A' <= #[trigger] r@[i] <= 'Z'),
{
    s.to_lowercase()
}

// ---------------------------------------------------------------- selection

/// The first `n` characters, or all where there are fewer.
pub open spec fn first_chars(s: Seq<char>, n: nat) -> Seq<char> {
    if s.len() <= n {
        s
    } else {
        s.take(n as int)
    }
}

/// Takes at most `n` characters from the front.
pub fn take_chars(s: &[char], n: usize) -> (r: String)
    ensures
        r@ == first_chars(s@, n as nat),
{
    if s.len() <= n {
        string_of(s)
    } else {
        assert(s@.subrange(0, n as int) == s@.take(n as int));
        string_of(slice_subrange(s, 0, n))
    }
}

/// Whether one of the strings holds the text.
pub fn list_has(list: &[String], x: &str) -> (r: bool)
    ensures
        r == texts(list@).contains(x@),
{
    let mut i: usize = 0;
    while i < list.len()
        invariant
            i <= list.len(),
            forall|j: int| 0 <= j < i ==> texts(list@)[j] != x@,
        decreases list.len() - i,
    {
        if same_string(list[i].as_str(), x) {
            assert(texts(list@)[i as int] == x@);
            return true;
        }
        i += 1;
    }
    false
}

/// The position of the first `c`, or the length where there is none.
pub open spec fn first_index(s: Seq<char>, c: char) -> nat
    decreases s.len(),
{
    if s.len() == 0 || s[0] == c {
        0
    } else {
        1 + first_index(s.skip(1), c)
    }
}

/// The first `c` is one, and none stands before it.
pub proof fn lemma_first_index(s: Seq<char>, c: char)
    ensures
        first_index(s, c) <= s.len(),
        first_index(s, c) < s.len() ==> s[first_index(s, c) as int] == c,
        forall|i: int| 0 <= i < first_index(s, c) ==> #[trigger] s[i] != c,
    decreases s.len(),
{
    if s.len() > 0 && s[0] != c {
        lemma_first_index(s.skip(1), c);
        assert forall|i: int| 0 <= i < first_index(s, c) implies #[trigger] s[i] != c by {
            if i > 0 {
                assert(s[i] == s.skip(1)[i - 1]);
            }
        }
    }
}

/// A position with `c` and none before it is the first.
pub proof fn lemma_first_index_unique(s: Seq<char>, c: char, k: int)
    requires
        0 <= k < s.len(),
        s[k] == c,
        forall|i: int| 0 <= i < k ==> #[trigger] s[i] != c,
    ensures
        first_index(s, c) == k,
{
    lemma_first_index(s, c);
    if first_index(s, c) < k {
        assert(s[first_index(s, c) as int] != c);
    }
}

/// Finds the first `c`.
pub fn find_char(s: &[char], c: char) -> (r: Option<usize>)
    ensures
        match r {
            Some(i) => i < s@.len() && first_index(s@, c) == i,
            None => first_index(s@, c) == s@.len(),
        },
{
    let mut i: usize = 0;
    assert(s@.skip(0) == s@);
    while i < s.len()
        invariant
            i <= s.len(),
            first_index(s@, c) == i + first_index(s@.skip(i as int), c),
        decreases s.len() - i,
    {
        if s[i] == c {
            return Some(i);
        }
        assert(s@.skip(i as int).skip(1) == s@.skip(i + 1));
        i += 1;
    }
    None
}

// ------------------------------------------------------------- more lemmas

/// Joining two lists of pieces.
pub proof fn lemma_joined_concat(a: Seq<Seq<char>>, b: Seq<Seq<char>>, sep: Seq<char>)
    requires
        a.len() > 0,
        b.len() > 0,
    ensures
        joined(a + b, sep) == joined(a, sep) + sep + joined(b, sep),
    decreases b.len(),
{
    if b.len() == 1 {
        assert(a + b == a.push(b[0]));
        lemma_joined_push(a, b[0], sep);
    } else {
        let h = b.drop_last();
        lemma_joined_concat(a, h, sep);
        assert(a + b == (a + h).push(b.last()));
        lemma_joined_push(a + h, b.last(), sep);
        assert(joined(a, sep) + sep + joined(h, sep) + sep + b.last() == joined(a, sep) + sep + (
        joined(h, sep) + sep + b.last()));
    }
}

/// Splitting a joined list in which one piece may hold separators of its own.
pub proof fn lemma_split_around(p: Seq<Seq<char>>, x: Seq<char>, q: Seq<Seq<char>>, sep: char)
    requires
        p.len() > 0,
        q.len() > 0,
        forall|i: int| 0 <= i < p.len() ==> !(#[trigger] p[i]).contains(sep),
        forall|i: int| 0 <= i < q.len() ==> !(#[trigger] q[i]).contains(sep),
    ensures
        split_on(joined(p + seq![x] + q, seq![sep]), sep) == p + split_on(x, sep) + q,
{
    let s = seq![sep];
    lemma_joined_concat(p + seq![x], q, s);
    lemma_joined_concat(p, seq![x], s);
    lemma_split_concat(joined(p, s), x, sep);
    lemma_split_concat(joined(p, s) + s + x, joined(q, s), sep);
    lemma_joined_split(p, sep);
    lemma_joined_split(q, sep);
}

/// Trimming the end of a text that begins with no white space keeps its beginning.
pub proof fn lemma_trimmed_end_front(s: Seq<char>)
    requires
        s.len() > 0,
        !is_space(s[0]),
    ensures
        trimmed_end(s).len() > 0,
        trimmed_end(s)[0] == s[0],
    decreases s.len(),
{
    if is_space(s.last()) {
        lemma_trimmed_end_front(s.drop_last());
    }
}

/// A text without white space is not changed by trimming.
pub proof fn lemma_trimmed_solid(s: Seq<char>)
    requires
        forall|i: int| 0 <= i < s.len() ==> !is_space(#[trigger] s[i]),
    ensures
        trimmed(s) == s,
{
    if s.len() > 0 {
        assert(!is_space(s[0]));
        assert(!is_space(s[s.len() - 1]));
    }
}

/// A space in front makes no difference to a trimmed text.
pub proof fn lemma_trimmed_space(s: Seq<char>)
    ensures
        trimmed(seq![' '] + s) == trimmed(s),
{
    assert((seq![' '] + s).skip(1) == s);
}

/// A text trimmed at the front begins with no white space.
pub proof fn lemma_trimmed_start_front(s: Seq<char>)
    ensures
        trimmed_start(s).len() > 0 ==> !is_space(trimmed_start(s)[0]),
    decreases s.len(),
{
    if s.len() > 0 && is_space(s[0]) {
        lemma_trimmed_start_front(s.skip(1));
    }
}

/// A text trimmed at the end ends in no white space.
pub proof fn lemma_trimmed_end_last(s: Seq<char>)
    ensures
        trimmed_end(s).len() > 0 ==> !is_space(trimmed_end(s).last()),
        trimmed_end(s).len() <= s.len(),
        trimmed_end(s) == s.take(trimmed_end(s).len() as int),
    decreases s.len(),
{
    if s.len() > 0 && is_space(s.last()) {
        lemma_trimmed_end_last(s.drop_last());
        let k = trimmed_end(s).len() as int;
        assert(s.drop_last().take(k) == s.take(k));
    } else {
        assert(s.take(s.len() as int) == s);
    }
}

/// A trimmed text has no white space at either end.
pub proof fn lemma_trimmed_ends(s: Seq<char>)
    requires
        trimmed(s) == s,
        s.len() > 0,
    ensures
        !is_space(s[0]),
        !is_space(s.last()),
{
    let t = trimmed_start(s);
    lemma_trimmed_start_front(s);
    lemma_trimmed_end_last(t);
    lemma_trimmed_start_shorter(s);
    assert(t == s);
}

/// Trimming the front of a text makes it no longer.
pub proof fn lemma_trimmed_start_shorter(s: Seq<char>)
    ensures
        trimmed_start(s).len() <= s.len(),
        trimmed_start(s) == s.skip(s.len() - trimmed_start(s).len()),
    decreases s.len(),
{
    if s.len() > 0 && is_space(s[0]) {
        lemma_trimmed_start_shorter(s.skip(1));
        let k = trimmed_start(s).len();
        assert(s.skip(1).skip(s.len() - 1 - k) == s.skip(s.len() - k));
    } else {
        assert(s.skip(0) == s);
    }
}

/// A character that is not in a text is in no part of it.
pub proof fn lemma_part_lacks(s: Seq<char>, from: int, to: int, c: char)
    requires
        0 <= from <= to <= s.len(),
        !s.contains(c),
    ensures
        !s.subrange(from, to).contains(c),
{
    let p = s.subrange(from, to);
    if p.contains(c) {
        let k = choose|k: int| 0 <= k < p.len() && p[k] == c;
        assert(s[from + k] == c);
    }
}

/// Trimming brings no character into a text.
pub proof fn lemma_trimmed_lacks(s: Seq<char>, c: char)
    requires
        !s.contains(c),
    ensures
        !trimmed(s).contains(c),
        !trimmed_end(s).contains(c),
{
    lemma_trimmed_start_shorter(s);
    lemma_trimmed_end_last(s);
    let a = trimmed_start(s);
    lemma_part_lacks(s, s.len() - a.len(), s.len() as int, c);
    assert(a == s.subrange(s.len() - a.len(), s.len() as int));
    lemma_trimmed_end_last(a);
    lemma_part_lacks(a, 0, trimmed_end(a).len() as int, c);
    assert(trimmed_end(a) == a.subrange(0, trimmed_end(a).len() as int));
    lemma_part_lacks(s, 0, trimmed_end(s).len() as int, c);
    assert(trimmed_end(s) == s.subrange(0, trimmed_end(s).len() as int));
}

/// The pieces of a text hold no character that the text does not hold.
pub proof fn lemma_split_lacks(s: Seq<char>, sep: char, c: char)
    requires
        !s.contains(c),
    ensures
        forall|i: int| 0 <= i < split_on(s, sep).len() ==> !(#[trigger] split_on(s, sep)[i]).contains(c),
    decreases s.len(),
{
    if s.len() > 0 {
        let front = s.drop_last();
        assert(front == s.subrange(0, s.len() - 1));
        lemma_part_lacks(s, 0, s.len() - 1, c);
        lemma_split_lacks(front, sep, c);
        lemma_split_pieces(front, sep);
        assert(s.contains(s.last()));
        let before = split_on(front, sep);
        let one = seq![s.last()];
        assert(!one.contains(c));
        lemma_concat_lacks(before.last(), one, c);
        assert(before.last() + one == before.last().push(s.last()));
        assert(!Seq::<char>::empty().contains(c));
        let all = split_on(s, sep);
        assert forall|i: int| 0 <= i < all.len() implies !(#[trigger] all[i]).contains(c) by {
            if i < all.len() - 1 {
                assert(all[i] == before[i]);
            }
        }
    } else {
        assert(!Seq::<char>::empty().contains(c));
    }
}

/// A text without leading characters is no longer than the text.
pub proof fn lemma_without_leading_shorter(s: Seq<char>, a: char, b: char)
    ensures
        without_leading(s, a, b).len() <= s.len(),
        without_leading(s, a, b).len() == s.len() ==> without_leading(s, a, b) == s,
    decreases s.len(),
{
    if s.len() > 0 && (s[0] == a || s[0] == b) {
        lemma_without_leading_shorter(s.skip(1), a, b);
    }
}

/// Removing leading characters brings none into a text.
pub proof fn lemma_without_leading_lacks(s: Seq<char>, a: char, b: char, c: char)
    requires
        !s.contains(c),
    ensures
        !without_leading(s, a, b).contains(c),
    decreases s.len(),
{
    if s.len() > 0 && (s[0] == a || s[0] == b) {
        lemma_part_lacks(s, 1, s.len() as int, c);
        assert(s.skip(1) == s.subrange(1, s.len() as int));
        lemma_without_leading_lacks(s.skip(1), a, b, c);
    }
}

/// Neither of two texts holds a character: nor do both together.
pub proof fn lemma_concat_lacks(a: Seq<char>, b: Seq<char>, c: char)
    requires
        !a.contains(c),
        !b.contains(c),
    ensures
        !(a + b).contains(c),
{
    let s = a + b;
    if s.contains(c) {
        let i = choose|i: int| 0 <= i < s.len() && s[i] == c;
        if i < a.len() {
            assert(a[i] == c);
        } else {
            assert(b[i - a.len()] == c);
        }
    }
}

/// Joining brings no character into a text that neither the pieces nor the separator
/// hold.
pub proof fn lemma_joined_lacks(parts: Seq<Seq<char>>, sep: Seq<char>, c: char)
    requires
        !sep.contains(c),
        forall|i: int| 0 <= i < parts.len() ==> !(#[trigger] parts[i]).contains(c),
    ensures
        !joined(parts, sep).contains(c),
    decreases parts.len(),
{
    if parts.len() > 1 {
        let head = parts.drop_last();
        assert forall|i: int| 0 <= i < head.len() implies !(#[trigger] head[i]).contains(c) by {
            assert(head[i] == parts[i]);
        }
        lemma_joined_lacks(head, sep, c);
        lemma_concat_lacks(joined(head, sep), sep, c);
        lemma_concat_lacks(joined(head, sep) + sep, parts.last(), c);
    }
}

} // verus!
