//! Characters and strings: trimming, splitting, joining and comparing.
//!
//! A string is modelled by the sequence of its characters. Each operation is
//! first a function on such sequences, which the contracts speak of.

use vstd::prelude::*;

verus! {

/// `String::push`: the character is appended to the string.
pub assume_specification[ String::push ](string: &mut String, ch: char)
    ensures
        final(string)@ == old(string)@.push(ch),
;

// ---------------------------------------------------------------------------
// Characters

/// The characters with the Unicode property White_Space.
pub open spec fn is_space(c: char) -> bool {
    ||| '\u{9}' <= c <= '\u{d}'
    ||| c == ' '
    ||| c == '\u{85}'
    ||| c == '\u{a0}'
    ||| c == '\u{1680}'
    ||| '\u{2000}' <= c <= '\u{200a}'
    ||| c == '\u{2028}'
    ||| c == '\u{2029}'
    ||| c == '\u{202f}'
    ||| c == '\u{205f}'
    ||| c == '\u{3000}'
}

/// Whether `c` is white space.
pub fn space(c: char) -> (yes: bool)
    ensures
        yes == is_space(c),
{
    ('\u{9}' <= c && c <= '\u{d}') || c == ' ' || c == '\u{85}' || c == '\u{a0}' || c == '\u{1680}'
        || ('\u{2000}' <= c && c <= '\u{200a}') || c == '\u{2028}' || c == '\u{2029}' || c
        == '\u{202f}' || c == '\u{205f}' || c == '\u{3000}'
}

/// A line feed or a carriage return.
pub open spec fn is_line_end(c: char) -> bool {
    c == '\n' || c == '\r'
}

/// ASCII letters and digits.
pub open spec fn is_alnum(c: char) -> bool {
    'a' <= c <= 'z' || 'A' <= c <= 'Z' || '0' <= c <= '9'
}

/// Whether `c` is an ASCII letter or digit.
pub fn alnum(c: char) -> (yes: bool)
    ensures
        yes == is_alnum(c),
{
    ('a' <= c && c <= 'z') || ('A' <= c && c <= 'Z') || ('0' <= c && c <= '9')
}

/// `c` with an ASCII upper case letter made lower case.
pub open spec fn lower(c: char) -> char {
    if 'A' <= c <= 'Z' {
        (c as u32 + 32) as char
    } else {
        c
    }
}

/// The same characters, but for the case of ASCII letters.
pub open spec fn same_ignoring_case(a: Seq<char>, b: Seq<char>) -> bool {
    a.map_values(|c: char| lower(c)) == b.map_values(|c: char| lower(c))
}

// ---------------------------------------------------------------------------
// Characters of a string

/// The characters of `text`, in order.
pub fn chars_of(text: &str) -> (chars: Vec<char>)
    ensures
        chars@ == text@,
{
    let mut chars: Vec<char> = Vec::new();
    for c in it: text.chars()
        invariant
            it.seq() == text@,
            chars@ == text@.take(it.index()),
    {
        chars.push(c);
        assert(text@.take(it.index() + 1) == text@.take(it.index()).push(text@[it.index()]));
    }
    assert(text@.take(text@.len() as int) == text@);
    chars
}

/// Whether two strings hold the same characters.
pub fn same(a: &str, b: &str) -> (yes: bool)
    ensures
        yes == (a@ == b@),
{
    let x: Vec<char> = chars_of(a);
    let y: Vec<char> = chars_of(b);
    if x.len() != y.len() {
        return false;
    }
    let mut i: usize = 0;
    while i < x.len()
        invariant
            x@ == a@,
            y@ == b@,
            x.len() == y.len(),
            i <= x.len(),
            forall|k: int| 0 <= k < i ==> x@[k] == y@[k],
        decreases x.len() - i,
    {
        if x[i] != y[i] {
            assert(a@[i as int] != b@[i as int]);
            return false;
        }
        i = i + 1;
    }
    assert(a@ =~= b@);
    true
}

/// Whether two strings hold the same characters, but for the case of ASCII
/// letters.
pub fn same_but_case(a: &str, b: &str) -> (yes: bool)
    ensures
        yes == same_ignoring_case(a@, b@),
{
    let x: Vec<char> = chars_of(a);
    let y: Vec<char> = chars_of(b);
    let ghost la = a@.map_values(|c: char| lower(c));
    let ghost lb = b@.map_values(|c: char| lower(c));
    if x.len() != y.len() {
        assert(la.len() != lb.len());
        return false;
    }
    let mut i: usize = 0;
    while i < x.len()
        invariant
            x@ == a@,
            y@ == b@,
            la == a@.map_values(|c: char| lower(c)),
            lb == b@.map_values(|c: char| lower(c)),
            x.len() == y.len(),
            i <= x.len(),
            forall|k: int| 0 <= k < i ==> la[k] == lb[k],
        decreases x.len() - i,
    {
        if lower_of(x[i]) != lower_of(y[i]) {
            assert(la[i as int] != lb[i as int]);
            return false;
        }
        i = i + 1;
    }
    assert(la =~= lb);
    true
}

/// The number of `lower(c)`.
fn lower_of(c: char) -> (n: u32)
    ensures
        n == lower(c) as u32,
{
    if 'A' <= c && c <= 'Z' {
        c as u32 + 32
    } else {
        c as u32
    }
}

// ---------------------------------------------------------------------------
// Trimming

/// `s` without the leading characters that `cut` holds of.
pub open spec fn trim_start(s: Seq<char>, cut: spec_fn(char) -> bool) -> Seq<char>
    decreases s.len(),
{
    if s.len() > 0 && cut(s[0]) {
        trim_start(s.drop_first(), cut)
    } else {
        s
    }
}

/// `s` without the trailing characters that `cut` holds of.
pub open spec fn trim_end(s: Seq<char>, cut: spec_fn(char) -> bool) -> Seq<char>
    decreases s.len(),
{
    if s.len() > 0 && cut(s.last()) {
        trim_end(s.drop_last(), cut)
    } else {
        s
    }
}

/// `s` without leading and trailing white space.
pub open spec fn trimmed(s: Seq<char>) -> Seq<char> {
    trim_end(trim_start(s, |c: char| is_space(c)), |c: char| is_space(c))
}

/// `s` without the line feeds and carriage returns at its end.
pub open spec fn without_line_end(s: Seq<char>) -> Seq<char> {
    trim_end(s, |c: char| is_line_end(c))
}

/// What trimming at the start leaves is the part from the first character
/// that is kept.
pub proof fn lemma_trim_start_is(s: Seq<char>, cut: spec_fn(char) -> bool, i: int)
    requires
        0 <= i <= s.len(),
        forall|k: int| 0 <= k < i ==> cut(#[trigger] s[k]),
        i < s.len() ==> !cut(s[i]),
    ensures
        trim_start(s, cut) == s.skip(i),
    decreases i,
{
    if i == 0 {
        assert(s.skip(0) == s);
    } else {
        let t = s.drop_first();
        assert(cut(s[0]));
        assert forall|k: int| 0 <= k < i - 1 implies cut(#[trigger] t[k]) by {
            assert(t[k] == s[k + 1]);
        }
        lemma_trim_start_is(t, cut, i - 1);
        assert(t.skip(i - 1) == s.skip(i));
    }
}

/// What trimming at the end leaves is the part up to the last character that
/// is kept.
pub proof fn lemma_trim_end_is(s: Seq<char>, cut: spec_fn(char) -> bool, i: int)
    requires
        0 <= i <= s.len(),
        forall|k: int| i <= k < s.len() ==> cut(#[trigger] s[k]),
        i > 0 ==> !cut(s[i - 1]),
    ensures
        trim_end(s, cut) == s.take(i),
    decreases s.len(),
{
    if i == s.len() {
        assert(s.take(i) == s);
    } else {
        let t = s.drop_last();
        assert(cut(s[s.len() - 1]));
        lemma_trim_end_is(t, cut, i);
        assert(t.take(i) == s.take(i));
    }
}

/// `text` without leading and trailing white space.
pub fn trim<'a>(text: &'a str) -> (inner: &'a str)
    ensures
        inner@ == trimmed(text@),
{
    let chars: Vec<char> = chars_of(text);
    let mut from: usize = 0;
    while from < chars.len() && space(chars[from])
        invariant
            from <= chars.len(),
            forall|k: int| 0 <= k < from ==> is_space(#[trigger] chars@[k]),
        decreases chars.len() - from,
    {
        from = from + 1;
    }
    let mut to: usize = chars.len();
    while from < to && space(chars[to - 1])
        invariant
            from <= to <= chars.len(),
            forall|k: int| to <= k < chars.len() ==> is_space(#[trigger] chars@[k]),
        decreases to,
    {
        to = to - 1;
    }
    proof {
        let cut = |c: char| is_space(c);
        lemma_trim_start_is(text@, cut, from as int);
        let rest = text@.skip(from as int);
        lemma_trim_end_is(rest, cut, to - from);
        assert(rest.take(to - from) == text@.subrange(from as int, to as int));
    }
    text.substring_char(from, to)
}

/// `text` without the line feeds and carriage returns at its end.
pub fn trim_line_end<'a>(text: &'a str) -> (inner: &'a str)
    ensures
        inner@ == without_line_end(text@),
{
    let chars: Vec<char> = chars_of(text);
    let mut to: usize = chars.len();
    while 0 < to && (chars[to - 1] == '\n' || chars[to - 1] == '\r')
        invariant
            to <= chars.len(),
            forall|k: int| to <= k < chars.len() ==> is_line_end(#[trigger] chars@[k]),
        decreases to,
    {
        to = to - 1;
    }
    proof {
        lemma_trim_end_is(text@, |c: char| is_line_end(c), to as int);
    }
    text.substring_char(0, to)
}

// ---------------------------------------------------------------------------
// Finding and splitting

/// The index of the first `c` in `s`, or the length of `s` if there is none.
pub open spec fn find(s: Seq<char>, c: char) -> int
    decreases s.len(),
{
    if s.len() == 0 || s[0] == c {
        0
    } else {
        1 + find(s.drop_first(), c)
    }
}

/// The index of the last `c` in `s`, or -1 if there is none.
pub open spec fn find_last(s: Seq<char>, c: char) -> int
    decreases s.len(),
{
    if s.len() == 0 || s.last() == c {
        s.len() - 1
    } else {
        find_last(s.drop_last(), c)
    }
}

/// What comes before and after the first `c` in `s`.
pub open spec fn split_at_first(s: Seq<char>, c: char) -> Option<(Seq<char>, Seq<char>)> {
    let i = find(s, c);
    if i < s.len() {
        Some((s.take(i), s.skip(i + 1)))
    } else {
        None
    }
}

/// What comes before and after the last `c` in `s`.
pub open spec fn split_at_last(s: Seq<char>, c: char) -> Option<(Seq<char>, Seq<char>)> {
    let i = find_last(s, c);
    if 0 <= i {
        Some((s.take(i), s.skip(i + 1)))
    } else {
        None
    }
}

/// An index with no `c` before it, and `c` at it or nothing at all, is the one
/// that is found.
pub proof fn lemma_find_is(s: Seq<char>, c: char, i: int)
    requires
        0 <= i <= s.len(),
        forall|k: int| 0 <= k < i ==> #[trigger] s[k] != c,
        i < s.len() ==> s[i] == c,
    ensures
        find(s, c) == i,
    decreases i,
{
    if i > 0 {
        let t = s.drop_first();
        assert(s[0] != c);
        assert forall|k: int| 0 <= k < i - 1 implies #[trigger] t[k] != c by {
            assert(t[k] == s[k + 1]);
        }
        lemma_find_is(t, c, i - 1);
    }
}

/// What is found is in range, with no `c` before it.
pub proof fn lemma_find(s: Seq<char>, c: char)
    ensures
        0 <= find(s, c) <= s.len(),
        forall|k: int| 0 <= k < find(s, c) ==> #[trigger] s[k] != c,
        find(s, c) < s.len() ==> s[find(s, c)] == c,
    decreases s.len(),
{
    if s.len() > 0 && s[0] != c {
        let t = s.drop_first();
        lemma_find(t, c);
        assert forall|k: int| 0 <= k < find(s, c) implies #[trigger] s[k] != c by {
            if k > 0 {
                assert(s[k] == t[k - 1]);
            }
        }
    }
}

/// An index with no `c` behind it, and `c` at it or nothing at all, is the one
/// that is found from the end.
pub proof fn lemma_find_last_is(s: Seq<char>, c: char, i: int)
    requires
        -1 <= i < s.len(),
        forall|k: int| i < k < s.len() ==> #[trigger] s[k] != c,
        0 <= i ==> s[i] == c,
    ensures
        find_last(s, c) == i,
    decreases s.len(),
{
    if s.len() > 0 && i < s.len() - 1 {
        assert(s[s.len() - 1] != c);
        lemma_find_last_is(s.drop_last(), c, i);
    }
}

/// The index of the first `c` among `chars` at `from` or later, or their number.
fn index_from(chars: &Vec<char>, from: usize, c: char) -> (i: usize)
    requires
        from <= chars.len(),
    ensures
        i == from + find(chars@.skip(from as int), c),
        from <= i <= chars.len(),
{
    let mut i: usize = from;
    while i < chars.len() && chars[i] != c
        invariant
            from <= i <= chars.len(),
            forall|k: int| from <= k < i ==> #[trigger] chars@[k] != c,
        decreases chars.len() - i,
    {
        i = i + 1;
    }
    proof {
        lemma_find_is(chars@.skip(from as int), c, i - from);
    }
    i
}

/// What comes before and after the first `c` in `text`, if there is one.
pub fn split_once<'a>(text: &'a str, c: char) -> (parts: Option<(&'a str, &'a str)>)
    ensures
        match parts {
            Some((before, after)) => split_at_first(text@, c) == Some((before@, after@)),
            None => split_at_first(text@, c) is None,
        },
{
    let chars: Vec<char> = chars_of(text);
    let i: usize = index_from(&chars, 0, c);
    assert(chars@.skip(0) == text@);
    if i == chars.len() {
        return None;
    }
    let before: &str = text.substring_char(0, i);
    let after: &str = text.substring_char(i + 1, chars.len());
    assert(before@ == text@.take(i as int));
    assert(after@ == text@.skip(i + 1));
    Some((before, after))
}

/// What comes before and after the last `c` in `text`, if there is one.
pub fn rsplit_once<'a>(text: &'a str, c: char) -> (parts: Option<(&'a str, &'a str)>)
    ensures
        match parts {
            Some((before, after)) => split_at_last(text@, c) == Some((before@, after@)),
            None => split_at_last(text@, c) is None,
        },
{
    let chars: Vec<char> = chars_of(text);
    let mut i: usize = chars.len();
    while 0 < i && chars[i - 1] != c
        invariant
            i <= chars.len(),
            forall|k: int| i <= k < chars.len() ==> #[trigger] chars@[k] != c,
        decreases i,
    {
        i = i - 1;
    }
    proof {
        lemma_find_last_is(text@, c, i - 1);
    }
    if i == 0 {
        return None;
    }
    let before: &str = text.substring_char(0, i - 1);
    let after: &str = text.substring_char(i, chars.len());
    assert(before@ == text@.take(i - 1));
    assert(after@ == text@.skip(i as int));
    Some((before, after))
}

/// Whether `text` starts with `prefix`.
pub fn starts_with(text: &str, prefix: &str) -> (yes: bool)
    ensures
        yes == prefix@.is_prefix_of(text@),
{
    let n: usize = prefix.unicode_len();
    if text.unicode_len() < n {
        return false;
    }
    same(text.substring_char(0, n), prefix)
}

/// Whether `text` ends with `suffix`.
pub fn ends_with(text: &str, suffix: &str) -> (yes: bool)
    ensures
        yes == suffix@.is_suffix_of(text@),
{
    let n: usize = suffix.unicode_len();
    let m: usize = text.unicode_len();
    if m < n {
        return false;
    }
    same(text.substring_char(m - n, m), suffix)
}

/// What follows `prefix` in `text`, if `text` starts with it.
pub fn strip_prefix<'a>(text: &'a str, prefix: &str) -> (rest: Option<&'a str>)
    ensures
        match rest {
            Some(rest) => prefix@.is_prefix_of(text@) && rest@ == text@.skip(prefix@.len() as int),
            None => !prefix@.is_prefix_of(text@),
        },
{
    if starts_with(text, prefix) {
        let rest: &str = text.substring_char(prefix.unicode_len(), text.unicode_len());
        assert(rest@ == text@.skip(prefix@.len() as int));
        Some(rest)
    } else {
        None
    }
}

/// The first `count` characters of `text`, or all of them where it has fewer.
pub open spec fn first_chars(text: Seq<char>, count: int) -> Seq<char> {
    if text.len() <= count {
        text
    } else {
        text.take(count)
    }
}

/// The first `count` characters of `text`, or all of them where it has fewer.
pub fn take_chars(text: &str, count: usize) -> (front: String)
    ensures
        front@ == first_chars(text@, count as int),
{
    if text.unicode_len() <= count {
        text.to_owned()
    } else {
        let front: &str = text.substring_char(0, count);
        assert(front@ == text@.take(count as int));
        front.to_owned()
    }
}

// ---------------------------------------------------------------------------
// Words and lines

/// The length of the part of `s` before its first white space.
pub open spec fn word_len(s: Seq<char>) -> int
    decreases s.len(),
{
    if s.len() == 0 || is_space(s[0]) {
        0
    } else {
        1 + word_len(s.drop_first())
    }
}

/// A word is not longer than what it is cut from.
pub proof fn lemma_word_len(s: Seq<char>)
    ensures
        0 <= word_len(s) <= s.len(),
        s.len() > 0 && !is_space(s[0]) ==> word_len(s) > 0,
        forall|k: int| 0 <= k < word_len(s) ==> !is_space(#[trigger] s[k]),
        word_len(s) < s.len() ==> is_space(s[word_len(s)]),
    decreases s.len(),
{
    if s.len() > 0 && !is_space(s[0]) {
        let t = s.drop_first();
        lemma_word_len(t);
        assert forall|k: int| 0 <= k < word_len(s) implies !is_space(#[trigger] s[k]) by {
            if k > 0 {
                assert(s[k] == t[k - 1]);
            }
        }
    }
}

/// Trimming at the start leaves a suffix.
pub proof fn lemma_trim_start_len(s: Seq<char>, cut: spec_fn(char) -> bool)
    ensures
        trim_start(s, cut).len() <= s.len(),
        trim_start(s, cut) == s.skip(s.len() - trim_start(s, cut).len()),
        trim_start(s, cut).len() > 0 ==> !cut(trim_start(s, cut)[0]),
    decreases s.len(),
{
    if s.len() > 0 && cut(s[0]) {
        lemma_trim_start_len(s.drop_first(), cut);
        assert(s.drop_first().skip(s.len() - 1 - trim_start(s, cut).len()) == s.skip(
            s.len() - trim_start(s, cut).len(),
        ));
    } else {
        assert(s.skip(0) == s);
    }
}

/// The parts of `s` between white space, in order.
pub open spec fn words(s: Seq<char>) -> Seq<Seq<char>>
    decreases s.len(),
{
    let t = trim_start(s, |c: char| is_space(c));
    if t.len() == 0 {
        seq![]
    } else {
        proof {
            lemma_trim_start_len(s, |c: char| is_space(c));
            lemma_word_len(t);
        }
        seq![t.take(word_len(t))] + words(t.skip(word_len(t)))
    }
}

/// A line that was ended by a line feed, without a carriage return before it.
pub open spec fn without_return(s: Seq<char>) -> Seq<char> {
    if s.len() > 0 && s.last() == '\r' {
        s.drop_last()
    } else {
        s
    }
}

/// The lines of `s`: each ends with a line feed, or with a carriage return and
/// a line feed, and for the last the ending may be missing.
pub open spec fn lines(s: Seq<char>) -> Seq<Seq<char>>
    decreases s.len(),
{
    if s.len() == 0 {
        seq![]
    } else {
        let i = find(s, '\n');
        if i < s.len() {
            proof {
                lemma_find(s, '\n');
            }
            seq![without_return(s.take(i))] + lines(s.skip(i + 1))
        } else {
            seq![s]
        }
    }
}

/// The characters of each string.
pub open spec fn texts(strings: Seq<String>) -> Seq<Seq<char>> {
    strings.map_values(|s: String| s@)
}

/// The parts of `text` between white space, in order.
pub fn split_words(text: &str) -> (parts: Vec<String>)
    ensures
        texts(parts@) == words(text@),
{
    let chars: Vec<char> = chars_of(text);
    let mut parts: Vec<String> = Vec::new();
    let mut i: usize = 0;
    let ghost cut = |c: char| is_space(c);
    assert(texts(parts@) == Seq::<Seq<char>>::empty());
    assert(text@.skip(0) == text@);
    while i < chars.len()
        invariant
            chars@ == text@,
            i <= chars.len(),
            cut == (|c: char| is_space(c)),
            words(text@) == texts(parts@) + words(text@.skip(i as int)),
        decreases chars.len() - i,
    {
        let ghost rest = text@.skip(i as int);
        if space(chars[i]) {
            assert(rest.drop_first() == text@.skip(i + 1));
            assert(trim_start(rest, cut) == trim_start(rest.drop_first(), cut));
            i = i + 1;
        } else {
            let from: usize = i;
            while i < chars.len() && !space(chars[i])
                invariant
                    from <= i <= chars.len(),
                    chars@ == text@,
                    forall|k: int| from <= k < i ==> !is_space(#[trigger] chars@[k]),
                decreases chars.len() - i,
            {
                i = i + 1;
            }
            let part: String = text.substring_char(from, i).to_owned();
            proof {
                let n = i - from;
                lemma_word_len(rest);
                if word_len(rest) < n {
                    assert(rest[word_len(rest)] == chars@[from + word_len(rest)]);
                } else if word_len(rest) > n {
                    assert(!is_space(rest[n]));
                }
                assert(trim_start(rest, cut) == rest);
                assert(part@ == rest.take(n));
                assert(rest.skip(n) == text@.skip(i as int));
                assert(texts(parts@.push(part)) == texts(parts@).push(part@));
                assert(words(text@) == texts(parts@) + (seq![part@] + words(text@.skip(i as int))));
                assert(texts(parts@) + (seq![part@] + words(text@.skip(i as int))) =~= texts(
                    parts@,
                ).push(part@) + words(text@.skip(i as int)));
            }
            parts.push(part);
        }
    }
    assert(text@.skip(i as int).len() == 0);
    assert(words(text@.skip(i as int)) == Seq::<Seq<char>>::empty());
    assert(texts(parts@) + Seq::<Seq<char>>::empty() =~= texts(parts@));
    parts
}

/// The lines of `text`.
pub fn split_lines(text: &str) -> (parts: Vec<String>)
    ensures
        texts(parts@) == lines(text@),
{
    let chars: Vec<char> = chars_of(text);
    let mut parts: Vec<String> = Vec::new();
    let mut i: usize = 0;
    assert(texts(parts@) == Seq::<Seq<char>>::empty());
    assert(text@.skip(0) == text@);
    while i < chars.len()
        invariant
            chars@ == text@,
            i <= chars.len(),
            lines(text@) == texts(parts@) + lines(text@.skip(i as int)),
        decreases chars.len() - i,
    {
        let ghost rest = text@.skip(i as int);
        let end: usize = index_from(&chars, i, '\n');
        proof {
            lemma_find(rest, '\n');
        }
        let mut to: usize = end;
        if end < chars.len() && i < end && chars[end - 1] == '\r' {
            to = end - 1;
        }
        let part: String = text.substring_char(i, to).to_owned();
        proof {
            if end < chars.len() {
                let line = rest.take(end - i);
                assert(line.len() > 0 ==> line.last() == chars@[end - 1]);
                assert(part@ == without_return(line));
                assert(rest.skip(end - i + 1) == text@.skip(end + 1));
                assert(lines(rest) == seq![part@] + lines(text@.skip(end + 1)));
            } else {
                assert(part@ == rest);
                assert(lines(rest) == seq![part@]);
                assert(lines(text@.skip(end as int)) == Seq::<Seq<char>>::empty());
                assert(seq![part@] =~= seq![part@] + lines(text@.skip(end as int)));
            }
            let next = if end < chars.len() { end + 1 } else { end as int };
            assert(texts(parts@.push(part)) == texts(parts@).push(part@));
            assert(texts(parts@) + (seq![part@] + lines(text@.skip(next))) =~= texts(parts@).push(
                part@,
            ) + lines(text@.skip(next)));
        }
        parts.push(part);
        if end < chars.len() {
            i = end + 1;
        } else {
            i = end;
        }
    }
    assert(lines(text@.skip(i as int)) == Seq::<Seq<char>>::empty());
    assert(texts(parts@) + Seq::<Seq<char>>::empty() =~= texts(parts@));
    parts
}

// ---------------------------------------------------------------------------
// Putting together

/// `parts` one behind the other, with `separator` between any two.
pub open spec fn joined(parts: Seq<Seq<char>>, separator: Seq<char>) -> Seq<char>
    decreases parts.len(),
{
    if parts.len() == 0 {
        seq![]
    } else if parts.len() == 1 {
        parts[0]
    } else {
        joined(parts.drop_last(), separator) + separator + parts.last()
    }
}

/// `parts` one behind the other, with `separator` between any two.
pub fn join(parts: &Vec<String>, separator: &str) -> (text: String)
    ensures
        text@ == joined(texts(parts@), separator@),
{
    let mut text: String = String::new();
    let mut i: usize = 0;
    let ghost all = texts(parts@);
    while i < parts.len()
        invariant
            i <= parts.len(),
            all == texts(parts@),
            text@ == joined(all.take(i as int), separator@),
        decreases parts.len() - i,
    {
        if i > 0 {
            text.append(separator);
        }
        text.append(parts[i].as_str());
        proof {
            let next = all.take(i + 1);
            assert(next.drop_last() == all.take(i as int));
            assert(next.last() == parts@[i as int]@);
        }
        i = i + 1;
    }
    assert(all.take(i as int) == all);
    text
}

/// `c` written `count` times.
pub fn repeat(c: char, count: usize) -> (text: String)
    ensures
        text@ == Seq::new(count as nat, |i: int| c),
{
    let mut text: String = String::new();
    let mut i: usize = 0;
    while i < count
        invariant
            i <= count,
            text@ == Seq::new(i as nat, |k: int| c),
        decreases count - i,
    {
        text.push(c);
        assert(text@ =~= Seq::new((i + 1) as nat, |k: int| c));
        i = i + 1;
    }
    text
}

/// `a` followed by `b`.
pub fn concat2(a: &str, b: &str) -> (text: String)
    ensures
        text@ == a@ + b@,
{
    let mut text: String = a.to_owned();
    text.append(b);
    text
}

/// `a` followed by `b` and `c`.
pub fn concat3(a: &str, b: &str, c: &str) -> (text: String)
    ensures
        text@ == a@ + b@ + c@,
{
    let mut text: String = concat2(a, b);
    text.append(c);
    text
}

/// `a` followed by `b`, `c` and `d`.
pub fn concat4(a: &str, b: &str, c: &str, d: &str) -> (text: String)
    ensures
        text@ == a@ + b@ + c@ + d@,
{
    let mut text: String = concat3(a, b, c);
    text.append(d);
    text
}

// ---------------------------------------------------------------------------
// Laws

/// Blanks, tabulators and ends of lines are white space; what can be seen in
/// ASCII is not.
pub proof fn law_visible_characters_are_kept(c: char)
    ensures
        c == ' ' || c == '\t' || c == '\n' || c == '\r' ==> is_space(c),
        '!' <= c <= '~' ==> !is_space(c),
        is_line_end(c) ==> is_space(c),
        is_line_end(c) <==> c == '\n' || c == '\r',
{
}

/// Trimming takes away the white space at both ends, and nothing else: what
/// stands between is left, whatever white space it holds within.
pub proof fn law_trimming_leaves_what_is_between(
    before: Seq<char>,
    text: Seq<char>,
    after: Seq<char>,
)
    requires
        forall|i: int| 0 <= i < before.len() ==> is_space(#[trigger] before[i]),
        forall|i: int| 0 <= i < after.len() ==> is_space(#[trigger] after[i]),
        text.len() > 0 ==> !is_space(text[0]) && !is_space(text.last()),
    ensures
        trimmed(before + text + after) == text,
{
    let s = before + text + after;
    let cut = |c: char| is_space(c);
    if text.len() > 0 {
        assert forall|k: int| 0 <= k < before.len() implies cut(#[trigger] s[k]) by {
            assert(s[k] == before[k]);
        }
        lemma_trim_start_is(s, cut, before.len() as int);
        let t = text + after;
        assert(s.skip(before.len() as int) =~= t);
        assert forall|k: int| text.len() <= k < t.len() implies cut(#[trigger] t[k]) by {
            assert(t[k] == after[k - text.len()]);
        }
        assert(t[text.len() - 1] == text.last());
        lemma_trim_end_is(t, cut, text.len() as int);
        assert(t.take(text.len() as int) =~= text);
    } else {
        assert forall|k: int| 0 <= k < s.len() implies cut(#[trigger] s[k]) by {
            if k < before.len() {
                assert(s[k] == before[k]);
            } else {
                assert(s[k] == after[k - before.len()]);
            }
        }
        lemma_trim_start_is(s, cut, s.len() as int);
        assert(s.skip(s.len() as int) =~= text);
    }
}

/// The end of a line is taken away, however often it is repeated, and nothing
/// else.
pub proof fn law_line_end_is_taken_away(line: Seq<char>, end: Seq<char>)
    requires
        forall|i: int| 0 <= i < end.len() ==> #[trigger] end[i] == '\n' || end[i] == '\r',
        line.len() > 0 ==> line.last() != '\n' && line.last() != '\r',
    ensures
        without_line_end(line + end) == line,
{
    let cut = |c: char| is_line_end(c);
    let s = line + end;
    assert forall|k: int| line.len() <= k < s.len() implies cut(#[trigger] s[k]) by {
        assert(s[k] == end[k - line.len()]);
    }
    lemma_trim_end_is(s, cut, line.len() as int);
    assert(s.take(line.len() as int) =~= line);
}

/// A text is split at the first of a character: what stands before holds it
/// not, what stands behind is whole.
pub proof fn law_text_is_split_at_the_first(before: Seq<char>, c: char, after: Seq<char>)
    requires
        !before.contains(c),
    ensures
        split_at_first(before + seq![c] + after, c) == Some((before, after)),
        split_at_first(before, c) is None,
{
    let s = before + seq![c] + after;
    assert forall|k: int| 0 <= k < before.len() implies #[trigger] s[k] != c by {
        assert(before.contains(before[k]));
    }
    lemma_find_is(s, c, before.len() as int);
    assert(s.take(before.len() as int) =~= before);
    assert(s.skip(before.len() as int + 1) =~= after);
    assert forall|k: int| 0 <= k < before.len() implies #[trigger] before[k] != c by {
        assert(before.contains(before[k]));
    }
    lemma_find_is(before, c, before.len() as int);
}

/// A text is split at the last of a character: what stands behind holds it
/// not, what stands before is whole.
pub proof fn law_text_is_split_at_the_last(before: Seq<char>, c: char, after: Seq<char>)
    requires
        !after.contains(c),
    ensures
        split_at_last(before + seq![c] + after, c) == Some((before, after)),
        split_at_last(after, c) is None,
{
    let s = before + seq![c] + after;
    let n = before.len() as int;
    assert forall|k: int| n < k < s.len() implies #[trigger] s[k] != c by {
        assert(s[k] == after[k - n - 1]);
        assert(after.contains(after[k - n - 1]));
    }
    lemma_find_last_is(s, c, n);
    assert(s.take(n) =~= before);
    assert(s.skip(n + 1) =~= after);
    assert forall|k: int| -1 < k < after.len() implies #[trigger] after[k] != c by {
        assert(after.contains(after[k]));
    }
    lemma_find_last_is(after, c, -1);
}

/// The first characters of a text are as many as are asked for, or all.
pub proof fn law_first_characters(text: Seq<char>, count: nat)
    ensures
        first_chars(text, count as int).is_prefix_of(text),
        first_chars(text, count as int).len() == (if text.len() < count {
            text.len()
        } else {
            count
        }),
{
    let front = first_chars(text, count as int);
    assert(text.subrange(0, front.len() as int) =~= front);
}

/// A text without white space is one word; white space before a text does not
/// matter; and a word that is followed by white space comes before the words of
/// the rest.
pub proof fn law_words_stand_between_white_space(word: Seq<char>, c: char, rest: Seq<char>)
    requires
        word.len() > 0,
        forall|i: int| 0 <= i < word.len() ==> !is_space(#[trigger] word[i]),
        is_space(c),
    ensures
        words(Seq::empty()) == Seq::<Seq<char>>::empty(),
        words(word) == seq![word],
        words(seq![c] + rest) == words(rest),
        words(word + seq![c] + rest) == seq![word] + words(rest),
{
    let cut = |c: char| is_space(c);
    // No text at all.
    let none = Seq::<char>::empty();
    lemma_trim_start_len(none, cut);
    assert(words(none) =~= Seq::<Seq<char>>::empty());
    // A word alone.
    lemma_trim_start_is(word, cut, 0);
    assert(word.skip(0) =~= word);
    lemma_word_len(word);
    if word_len(word) < word.len() {
        assert(!is_space(word[word_len(word)]));
    }
    assert(word.take(word.len() as int) =~= word);
    assert(word.skip(word.len() as int) =~= none);
    assert(seq![word] + words(none) =~= seq![word]);
    // White space before a text.
    let spaced = seq![c] + rest;
    assert(spaced.drop_first() =~= rest);
    assert(trim_start(spaced, cut) == trim_start(rest, cut));
    // A word before white space.
    let s = word + seq![c] + rest;
    assert(s[0] == word[0]);
    lemma_trim_start_is(s, cut, 0);
    assert(s.skip(0) =~= s);
    lemma_word_len(s);
    let n = word_len(s);
    assert(s[word.len() as int] == c);
    if n < word.len() {
        assert(s[n] == word[n]);
    }
    if n > word.len() {
        assert(!is_space(s[word.len() as int]));
    }
    assert(s.take(n) =~= word);
    assert(s.skip(n) =~= spaced);
}

/// A text without a line feed is one line, and none where it is empty; a line
/// that is ended comes before the lines of the rest, and a carriage return
/// before its end does not belong to it.
pub proof fn law_lines_are_ended_by_line_feeds(line: Seq<char>, rest: Seq<char>)
    requires
        !line.contains('\n'),
    ensures
        lines(Seq::empty()) == Seq::<Seq<char>>::empty(),
        line.len() > 0 ==> lines(line) == seq![line],
        lines(line + seq!['\r', '\n'] + rest) == seq![line] + lines(rest),
        line.len() == 0 || line.last() != '\r' ==> lines(line + seq!['\n'] + rest) == seq![line]
            + lines(rest),
{
    assert forall|k: int| 0 <= k < line.len() implies #[trigger] line[k] != '\n' by {
        assert(line.contains(line[k]));
    }
    lemma_find_is(line, '\n', line.len() as int);
    let a = line + seq!['\r', '\n'] + rest;
    let n = line.len() as int;
    assert forall|k: int| 0 <= k < n + 1 implies #[trigger] a[k] != '\n' by {
        if k < n {
            assert(a[k] == line[k]);
        }
    }
    lemma_find_is(a, '\n', n + 1);
    assert(a.take(n + 1) =~= line.push('\r'));
    assert(line.push('\r').drop_last() =~= line);
    assert(a.skip(n + 2) =~= rest);
    let b = line + seq!['\n'] + rest;
    assert forall|k: int| 0 <= k < n implies #[trigger] b[k] != '\n' by {
        assert(b[k] == line[k]);
    }
    lemma_find_is(b, '\n', n);
    assert(b.take(n) =~= line);
    assert(b.skip(n + 1) =~= rest);
}

/// Parts are put together in their order, with what separates them between any
/// two and nowhere else.
pub proof fn law_parts_are_joined(parts: Seq<Seq<char>>, part: Seq<char>, separator: Seq<char>)
    ensures
        joined(Seq::empty(), separator) == Seq::<char>::empty(),
        joined(seq![part], separator) == part,
        parts.len() > 0 ==> joined(parts.push(part), separator) == joined(parts, separator)
            + separator + part,
{
    assert(parts.push(part).drop_last() =~= parts);
}

/// Two texts are the same but for case if they are as long, and where they
/// differ, one has a small letter of ASCII and the other has the capital.
pub proof fn law_case_is_that_of_ascii(a: Seq<char>, b: Seq<char>)
    ensures
        same_ignoring_case(a, b) <==> a.len() == b.len() && forall|i: int|
            #![trigger a[i]]
            #![trigger b[i]]
            0 <= i < a.len() ==> a[i] == b[i] || ('a' <= a[i] <= 'z' && b[i] as int + 32
                == a[i] as int) || ('a' <= b[i] <= 'z' && a[i] as int + 32 == b[i] as int),
{
    let x = a.map_values(|c: char| lower(c));
    let y = b.map_values(|c: char| lower(c));
    if same_ignoring_case(a, b) {
        assert(x.len() == y.len());
        assert forall|i: int| 0 <= i < a.len() implies a[i] == b[i] || ('a' <= a[i] <= 'z'
            && b[i] as int + 32 == a[i] as int) || ('a' <= b[i] <= 'z' && a[i] as int + 32
            == b[i] as int) by {
            assert(x[i] == y[i]);
        }
    } else if a.len() == b.len() && forall|i: int|
        #![trigger a[i]]
        0 <= i < a.len() ==> a[i] == b[i] || ('a' <= a[i] <= 'z' && b[i] as int + 32
            == a[i] as int) || ('a' <= b[i] <= 'z' && a[i] as int + 32 == b[i] as int) {
        assert forall|i: int| 0 <= i < x.len() implies x[i] == y[i] by {
            assert(a[i] == a[i]);
        }
        assert(x =~= y);
    }
}

} // verus!
