//! Text as sequences of characters: cutting, prefixes, trimming and lines.

use vstd::prelude::*;
use vstd::slice::slice_subrange;

verus! {

/// `String::push` appends the character to the end of the string.
pub assume_specification[ std::string::String::push ](s: &mut std::string::String, c: char)
    ensures
        final(s)@ == old(s)@.push(c),
;

/// The characters of a string slice.
pub fn to_chars(text: &str) -> (chars: Vec<char>)
    ensures
        chars@ == text@,
{
    let mut chars: Vec<char> = Vec::new();
    for c in it: text.chars()
        invariant
            it.seq() == text@,
            chars@ == text@.take(it.index()),
    {
        chars.push(c);
    }
    chars
}

/// The string made of the given characters.
pub fn to_text(chars: &[char]) -> (text: String)
    ensures
        text@ == chars@,
{
    let mut text = String::new();
    for i in 0..chars.len()
        invariant
            text@ == chars@.take(i as int),
    {
        text.push(chars[i]);
    }
    text
}

/// Whether two strings hold the same characters.
pub fn same_text(a: &str, b: &str) -> (same: bool)
    ensures
        same == (a@ == b@),
{
    let left: Vec<char> = to_chars(a);
    let right: Vec<char> = to_chars(b);
    if left.len() != right.len() {
        return false;
    }
    for i in 0..left.len()
        invariant
            left@ == a@,
            right@ == b@,
            left@.len() == right@.len(),
            forall|j: int| 0 <= j < i ==> left@[j] == right@[j],
    {
        if left[i] != right[i] {
            return false;
        }
    }
    assert(a@ =~= b@);
    true
}

/// The texts of a list of strings.
pub open spec fn texts(list: Seq<String>) -> Seq<Seq<char>> {
    Seq::new(list.len(), |i: int| list[i]@)
}

/// A copy of a list of strings.
pub fn copy_texts(list: &Vec<String>) -> (copy: Vec<String>)
    ensures
        texts(copy@) == texts(list@),
{
    let mut copy: Vec<String> = Vec::new();
    for i in 0..list.len()
        invariant
            copy@.len() == i,
            forall|j: int| 0 <= j < i ==> copy@[j]@ == list@[j]@,
    {
        copy.push(list[i].clone());
    }
    assert(texts(copy@) =~= texts(list@));
    copy
}

// ---------------------------------------------------------------------------
// Cutting at a character
// ---------------------------------------------------------------------------

/// What stands before and after the first `c`, if there is one.
pub open spec fn cut_first(s: Seq<char>, c: char) -> Option<(Seq<char>, Seq<char>)> {
    match s.index_of_first(c) {
        Some(i) => Some((s.take(i), s.skip(i + 1))),
        None => None,
    }
}

/// What stands before and after the last `c`, if there is one.
pub open spec fn cut_last(s: Seq<char>, c: char) -> Option<(Seq<char>, Seq<char>)> {
    match s.index_of_last(c) {
        Some(i) => Some((s.take(i), s.skip(i + 1))),
        None => None,
    }
}

/// A text put together around one `c` comes apart there again, where `c` does not
/// stand in the front part (for the first `c`) or in the back part (for the last `c`).
pub proof fn lemma_cut_joined(front: Seq<char>, c: char, back: Seq<char>)
    ensures
        !front.contains(c) ==> cut_first(front.push(c) + back, c) == Some((front, back)),
        !back.contains(c) ==> cut_last(front.push(c) + back, c) == Some((front, back)),
{
    let s = front.push(c) + back;
    let at = front.len() as int;
    assert(s[at] == c);
    assert(s.take(at) =~= front);
    assert(s.skip(at + 1) =~= back);
    s.index_of_first_ensures(c);
    s.index_of_last_ensures(c);
    assert(s.contains(c));
    if !front.contains(c) {
        let i = s.index_of_first(c)->0;
        if i < at {
            assert(front[i] == c);
        }
    }
    if !back.contains(c) {
        let i = s.index_of_last(c)->0;
        if i > at {
            assert(back[i - at - 1] == c);
        }
    }
}

/// The position of the first `c` in `chars`.
pub fn find_first(chars: &[char], c: char) -> (found: Option<usize>)
    ensures
        match found {
            Some(i) => chars@.index_of_first(c) == Some(i as int) && i < chars@.len(),
            None => chars@.index_of_first(c) is None,
        },
{
    for i in 0..chars.len()
        invariant
            forall|j: int| 0 <= j < i ==> chars@[j] != c,
    {
        if chars[i] == c {
            proof {
                chars@.index_of_first_ensures(c);
                assert(chars@.contains(c));
            }
            return Some(i);
        }
    }
    proof {
        chars@.index_of_first_ensures(c);
    }
    None
}

/// The position of the last `c` in `chars`.
pub fn find_last(chars: &[char], c: char) -> (found: Option<usize>)
    ensures
        match found {
            Some(i) => chars@.index_of_last(c) == Some(i as int) && i < chars@.len(),
            None => chars@.index_of_last(c) is None,
        },
{
    let mut i: usize = chars.len();
    while i > 0
        invariant
            i <= chars@.len(),
            forall|j: int| i <= j < chars@.len() ==> chars@[j] != c,
        decreases i,
    {
        i = i - 1;
        if chars[i] == c {
            proof {
                chars@.index_of_last_ensures(c);
                assert(chars@.contains(c));
            }
            return Some(i);
        }
    }
    proof {
        chars@.index_of_last_ensures(c);
    }
    None
}

/// Whether `c` stands in `chars`.
pub fn has_char(chars: &[char], c: char) -> (has: bool)
    ensures
        has == chars@.contains(c),
{
    proof {
        chars@.index_of_first_ensures(c);
    }
    find_first(chars, c).is_some()
}

/// The parts of a text before and after the first delimiter; the whole text and an empty
/// one, where there is no delimiter.
pub open spec fn parted(value: Seq<char>, delimiter: char) -> (Seq<char>, Seq<char>) {
    match cut_first(value, delimiter) {
        Some(parts) => parts,
        None => (value, Seq::empty()),
    }
}

/// Splits a slice of characters at the first delimiter.
pub fn part_chars<'a>(value: &'a [char], delimiter: char) -> (parts: (&'a [char], &'a [char]))
    ensures
        (parts.0@, parts.1@) == parted(value@, delimiter),
{
    let end: usize = value.len();
    match find_first(value, delimiter) {
        Some(i) => {
            let front = slice_subrange(value, 0, i);
            let back = slice_subrange(value, i + 1, end);
            assert(front@ =~= value@.take(i as int));
            assert(back@ =~= value@.skip(i + 1));
            (front, back)
        },
        None => {
            let back = slice_subrange(value, end, end);
            assert(back@ =~= Seq::<char>::empty());
            (value, back)
        },
    }
}

/// Splits a text at the first delimiter. Without a delimiter the whole text comes first
/// and nothing second.
pub fn split_once<'a>(value: &'a str, delimiter: char) -> (parts: (&'a str, &'a str))
    ensures
        (parts.0@, parts.1@) == parted(value@, delimiter),
{
    let chars: Vec<char> = to_chars(value);
    let end: usize = chars.len();
    match find_first(chars.as_slice(), delimiter) {
        Some(i) => {
            let front = value.substring_char(0, i);
            let back = value.substring_char(i + 1, end);
            assert(front@ =~= value@.take(i as int));
            assert(back@ =~= value@.skip(i + 1));
            (front, back)
        },
        None => {
            let back = value.substring_char(0, 0);
            assert(back@ =~= Seq::<char>::empty());
            (value, back)
        },
    }
}

// ---------------------------------------------------------------------------
// Prefixes and contained texts
// ---------------------------------------------------------------------------

/// Whether `chars` starts with `prefix`.
pub fn has_prefix(chars: &[char], prefix: &str) -> (has: bool)
    ensures
        has == prefix@.is_prefix_of(chars@),
{
    let wanted: Vec<char> = to_chars(prefix);
    if wanted.len() > chars.len() {
        return false;
    }
    for i in 0..wanted.len()
        invariant
            wanted@ == prefix@,
            wanted@.len() <= chars@.len(),
            forall|j: int| 0 <= j < i ==> wanted@[j] == chars@[j],
    {
        if wanted[i] != chars[i] {
            proof {
                assert(chars@.subrange(0, prefix@.len() as int)[i as int] == chars@[i as int]);
            }
            return false;
        }
    }
    assert(prefix@ =~= chars@.subrange(0, prefix@.len() as int));
    true
}

/// What follows `prefix` in a text that starts with it.
pub open spec fn stripped(s: Seq<char>, prefix: Seq<char>) -> Option<Seq<char>> {
    if prefix.is_prefix_of(s) {
        Some(s.skip(prefix.len() as int))
    } else {
        None
    }
}

/// What follows `prefix` in `chars`, if `chars` starts with it.
pub fn strip_prefix<'a>(chars: &'a [char], prefix: &str) -> (rest: Option<&'a [char]>)
    ensures
        match rest {
            Some(r) => stripped(chars@, prefix@) == Some(r@),
            None => stripped(chars@, prefix@) is None,
        },
{
    if has_prefix(chars, prefix) {
        let n: usize = to_chars(prefix).len();
        let rest = slice_subrange(chars, n, chars.len());
        assert(rest@ =~= chars@.skip(n as int));
        Some(rest)
    } else {
        None
    }
}

/// Whether `part` stands somewhere in `whole`.
pub open spec fn contains_text(whole: Seq<char>, part: Seq<char>) -> bool {
    exists|i: int|
        0 <= i <= whole.len() - part.len() && #[trigger] whole.skip(i).take(part.len() as int)
            == part
}

/// Whether `part` stands somewhere in `chars`.
pub fn has_text(chars: &[char], part: &str) -> (has: bool)
    ensures
        has == contains_text(chars@, part@),
{
    let n: usize = to_chars(part).len();
    if n > chars.len() {
        return false;
    }
    let mut i: usize = 0;
    while i <= chars.len() - n
        invariant
            n == part@.len(),
            n <= chars@.len(),
            i <= chars@.len() - n + 1,
            forall|j: int| 0 <= j < i ==> #[trigger] chars@.skip(j).take(n as int) != part@,
        decreases chars@.len() + 1 - i,
    {
        let rest = slice_subrange(chars, i, chars.len());
        proof {
            assert(rest@ =~= chars@.skip(i as int));
            assert(rest@.subrange(0, n as int) =~= chars@.skip(i as int).take(n as int));
        }
        if has_prefix(rest, part) {
            return true;
        }
        if i == chars.len() {
            return false;
        }
        i = i + 1;
    }
    false
}

// ---------------------------------------------------------------------------
// White space and lines
// ---------------------------------------------------------------------------

/// The characters with the Unicode property White_Space.
pub open spec fn white_space(c: char) -> bool {
    ||| '\u{9}' <= c <= '\u{d}'
    ||| c == ' '
    ||| c == '\u{85}'
    ||| c == '\u{a0}'
    ||| c == '\u{1680}'
    ||| '\u{2000}' <= c <= '\u{200a}'
    ||| c == '\u{2028}'
    ||| c == '\u{2029}'
    ||| c == '\u{202f}'
    ||| c == '\u{205f}'
    ||| c == '\u{3000}'
}

/// Whether `c` has the Unicode property White_Space.
pub fn is_white_space(c: char) -> (white: bool)
    ensures
        white == white_space(c),
{
    ('\u{9}' <= c && c <= '\u{d}') || c == ' ' || c == '\u{85}' || c == '\u{a0}' || c == '\u{1680}'
        || ('\u{2000}' <= c && c <= '\u{200a}') || c == '\u{2028}' || c == '\u{2029}'
        || c == '\u{202f}' || c == '\u{205f}' || c == '\u{3000}'
}

/// A text without the white space at its start.
pub open spec fn trimmed_start(s: Seq<char>) -> Seq<char>
    decreases s.len(),
{
    if s.len() > 0 && white_space(s[0]) {
        trimmed_start(s.skip(1))
    } else {
        s
    }
}

/// A text without the white space at its end.
pub open spec fn trimmed_end(s: Seq<char>) -> Seq<char>
    decreases s.len(),
{
    if s.len() > 0 && white_space(s.last()) {
        trimmed_end(s.drop_last())
    } else {
        s
    }
}

/// A text without the white space at both of its ends.
pub open spec fn trimmed(s: Seq<char>) -> Seq<char> {
    trimmed_end(trimmed_start(s))
}

/// A trimmed text neither starts nor ends with white space, and so trimming it again
/// changes nothing.
pub proof fn trimmed_idempotent(s: Seq<char>)
    ensures
        trimmed(s).len() > 0 ==> !white_space(trimmed(s)[0]) && !white_space(trimmed(s).last()),
        trimmed(trimmed(s)) == trimmed(s),
{
    lemma_trimmed_start_solid(s);
    lemma_trimmed_end_solid(trimmed_start(s));
}

proof fn lemma_trimmed_start_solid(s: Seq<char>)
    ensures
        trimmed_start(s).len() > 0 ==> !white_space(trimmed_start(s)[0]),
    decreases s.len(),
{
    if s.len() > 0 && white_space(s[0]) {
        lemma_trimmed_start_solid(s.skip(1));
    }
}

proof fn lemma_trimmed_end_solid(s: Seq<char>)
    ensures
        trimmed_end(s).len() > 0 ==> !white_space(trimmed_end(s).last()) && trimmed_end(s)[0]
            == s[0],
    decreases s.len(),
{
    if s.len() > 0 && white_space(s.last()) {
        lemma_trimmed_end_solid(s.drop_last());
    }
}

/// White space at the end of a text does not count when the text is trimmed.
pub proof fn lemma_trimmed_without_last(s: Seq<char>)
    requires
        s.len() > 0,
        white_space(s.last()),
    ensures
        trimmed(s.drop_last()) == trimmed(s),
    decreases s.len(),
{
    if s.len() > 1 && white_space(s[0]) {
        lemma_trimmed_without_last(s.skip(1));
        assert(s.drop_last().skip(1) =~= s.skip(1).drop_last());
    } else if s.len() == 1 {
        assert(s.skip(1) =~= s.drop_last());
    }
}

/// Whether a text is nothing but white space.
pub open spec fn blank(s: Seq<char>) -> bool {
    forall|i: int| 0 <= i < s.len() ==> white_space(#[trigger] s[i])
}

proof fn lemma_trimmed_start_blank(front: Seq<char>, s: Seq<char>)
    requires
        blank(front),
    ensures
        trimmed_start(front + s) == trimmed_start(s),
    decreases front.len(),
{
    if front.len() == 0 {
        assert(front + s =~= s);
    } else {
        assert((front + s)[0] == front[0]);
        assert(white_space(front[0]));
        assert((front + s).skip(1) =~= front.skip(1) + s);
        assert forall|i: int| 0 <= i < front.skip(1).len() implies white_space(
            #[trigger] front.skip(1)[i],
        ) by {
            assert(front.skip(1)[i] == front[i + 1]);
        }
        lemma_trimmed_start_blank(front.skip(1), s);
    }
}

/// White space around a text does not count when the text is trimmed.
pub proof fn outer_blanks_are_trimmed(front: Seq<char>, s: Seq<char>, back: Seq<char>)
    requires
        blank(front),
        blank(back),
    ensures
        trimmed(front + s + back) == trimmed(s),
    decreases back.len(),
{
    if back.len() == 0 {
        assert(front + s + back =~= front + s);
        lemma_trimmed_start_blank(front, s);
    } else {
        let whole = front + s + back;
        assert(whole.last() == back[back.len() - 1]);
        assert(white_space(back[back.len() - 1]));
        assert(whole.drop_last() =~= front + s + back.drop_last());
        assert forall|i: int| 0 <= i < back.drop_last().len() implies white_space(
            #[trigger] back.drop_last()[i],
        ) by {
            assert(back.drop_last()[i] == back[i]);
        }
        lemma_trimmed_without_last(whole);
        outer_blanks_are_trimmed(front, s, back.drop_last());
    }
}

/// Trims the white space at both ends of `chars`.
pub fn trim<'a>(chars: &'a [char]) -> (rest: &'a [char])
    ensures
        rest@ == trimmed(chars@),
{
    let mut start: usize = 0;
    assert(chars@.skip(0) =~= chars@);
    while start < chars.len() && is_white_space(chars[start])
        invariant
            start <= chars@.len(),
            trimmed_start(chars@) == trimmed_start(chars@.skip(start as int)),
        decreases chars@.len() - start,
    {
        assert(chars@.skip(start as int).skip(1) =~= chars@.skip(start + 1));
        start = start + 1;
    }
    let ghost solid = chars@.skip(start as int);
    assert(trimmed_start(chars@) == solid);
    let mut end: usize = chars.len();
    assert(solid.take(end - start) =~= solid);
    while end > start && is_white_space(chars[end - 1])
        invariant
            start <= end <= chars@.len(),
            solid == chars@.skip(start as int),
            trimmed_end(solid) == trimmed_end(solid.take(end - start)),
        decreases end,
    {
        proof {
            let tail = solid.take(end - start);
            assert(tail.last() == chars@[end - 1]);
            assert(tail.drop_last() =~= solid.take(end - start - 1));
        }
        end = end - 1;
    }
    proof {
        let tail = solid.take(end - start);
        assert(end > start ==> tail.last() == chars@[end - 1]);
        assert(trimmed_end(tail) == tail);
        assert(chars@.subrange(start as int, end as int) =~= tail);
    }
    slice_subrange(chars, start, end)
}

/// A line without the carriage return at its end.
pub open spec fn without_return(line: Seq<char>) -> Seq<char> {
    if line.len() > 0 && line.last() == '\r' {
        line.drop_last()
    } else {
        line
    }
}

/// The lines of a text. A line ends at a line feed, or at a carriage return with a line
/// feed behind it; the end of the last line is optional.
pub open spec fn lines(s: Seq<char>) -> Seq<Seq<char>>
    decreases s.len(),
{
    if s.len() == 0 {
        Seq::empty()
    } else {
        proof {
            s.index_of_first_ensures('\n');
        }
        match cut_first(s, '\n') {
            Some((line, rest)) => seq![without_return(line)] + lines(rest),
            None => seq![s],
        }
    }
}

/// The lines of `chars`, each as a string.
pub fn split_lines(chars: &[char]) -> (all: Vec<String>)
    ensures
        texts(all@) == lines(chars@),
{
    let mut all: Vec<String> = Vec::new();
    let mut rest: &[char] = chars;
    while rest.len() > 0
        invariant
            lines(chars@) == texts(all@) + lines(rest@),
        decreases rest@.len(),
    {
        let ghost before = rest@;
        let ghost done = texts(all@);
        let end: usize = rest.len();
        match find_first(rest, '\n') {
            Some(i) => {
                let line = slice_subrange(rest, 0, i);
                assert(line@ =~= before.take(i as int));
                let line = if line.len() > 0 && line[line.len() - 1] == '\r' {
                    let shorter = slice_subrange(line, 0, line.len() - 1);
                    assert(shorter@ =~= line@.drop_last());
                    shorter
                } else {
                    line
                };
                all.push(to_text(line));
                rest = slice_subrange(rest, i + 1, end);
                proof {
                    assert(rest@ =~= before.skip(i + 1));
                    assert(texts(all@) =~= done.push(line@));
                    assert(done + (seq![line@] + lines(rest@)) =~= done.push(line@) + lines(rest@));
                }
            },
            None => {
                all.push(to_text(rest));
                rest = slice_subrange(rest, end, end);
                proof {
                    assert(texts(all@) =~= done.push(before));
                    assert(lines(rest@) =~= Seq::<Seq<char>>::empty());
                    assert(done + seq![before] =~= texts(all@) + lines(rest@));
                }
            },
        }
    }
    assert(texts(all@) + lines(rest@) =~= texts(all@));
    all
}

// ---------------------------------------------------------------------------
// What the parts of a text make together
// ---------------------------------------------------------------------------

/// A text is cut where the delimiter first (or last) stands, and the parts with the
/// delimiter between them are the text; it is not cut exactly where it has no delimiter.
pub proof fn cut_parts_make_the_text(s: Seq<char>, c: char)
    ensures
        match cut_first(s, c) {
            Some((front, back)) => s == front.push(c) + back && !front.contains(c),
            None => !s.contains(c),
        },
        match cut_last(s, c) {
            Some((front, back)) => s == front.push(c) + back && !back.contains(c),
            None => !s.contains(c),
        },
{
    s.index_of_first_ensures(c);
    s.index_of_last_ensures(c);
    if let Some((front, back)) = cut_first(s, c) {
        let i = s.index_of_first(c)->0;
        assert(s =~= front.push(c) + back);
        if front.contains(c) {
            let j = front.index_of(c);
            assert(s[j] == c);
        }
    }
    if let Some((front, back)) = cut_last(s, c) {
        let i = s.index_of_last(c)->0;
        assert(s =~= front.push(c) + back);
        if back.contains(c) {
            let j = back.index_of(c);
            assert(s[i + 1 + j] == c);
        }
    }
}

/// A text comes apart at the first delimiter, and without one it comes whole and first.
pub proof fn parted_at_the_delimiter(front: Seq<char>, c: char, back: Seq<char>)
    requires
        !front.contains(c),
    ensures
        parted(front.push(c) + back, c) == (front, back),
        parted(front, c) == (front, Seq::<char>::empty()),
{
    lemma_cut_joined(front, c, back);
    front.index_of_first_ensures(c);
}

/// What follows a prefix is what was put behind it, and a text from which a prefix can be
/// taken is the prefix and the rest.
pub proof fn prefix_and_rest_make_the_text(s: Seq<char>, prefix: Seq<char>, rest: Seq<char>)
    ensures
        stripped(s, prefix) == Some(rest) <==> s == prefix + rest,
{
    let whole = prefix + rest;
    assert(prefix =~= whole.subrange(0, prefix.len() as int));
    assert(whole.skip(prefix.len() as int) =~= rest);
    if stripped(s, prefix) == Some(rest) {
        assert(s =~= prefix + rest);
    }
}

/// A text stands in every text that is made around it.
pub proof fn part_is_found(front: Seq<char>, part: Seq<char>, back: Seq<char>)
    ensures
        contains_text(front + part + back, part),
{
    let whole = front + part + back;
    assert(whole.skip(front.len() as int).take(part.len() as int) =~= part);
}

/// Where a text stands in another, the other is made around it.
pub proof fn found_part_is_there(whole: Seq<char>, part: Seq<char>) -> (around: (
    Seq<char>,
    Seq<char>,
))
    requires
        contains_text(whole, part),
    ensures
        whole == around.0 + part + around.1,
{
    let i = choose|i: int|
        0 <= i <= whole.len() - part.len() && #[trigger] whole.skip(i).take(part.len() as int)
            == part;
    let front = whole.take(i);
    let back = whole.skip(i + part.len());
    assert(whole =~= front + whole.skip(i).take(part.len() as int) + back);
    (front, back)
}

/// What is trimmed off a text is white space, at its two ends.
pub proof fn only_blanks_are_trimmed(s: Seq<char>) -> (around: (Seq<char>, Seq<char>))
    ensures
        s == around.0 + trimmed(s) + around.1,
        blank(around.0),
        blank(around.1),
{
    let front = lemma_trimmed_start_parts(s);
    let back = lemma_trimmed_end_parts(trimmed_start(s));
    assert(s =~= front + trimmed(s) + back);
    (front, back)
}

proof fn lemma_trimmed_start_parts(s: Seq<char>) -> (front: Seq<char>)
    ensures
        s == front + trimmed_start(s),
        blank(front),
    decreases s.len(),
{
    if s.len() > 0 && white_space(s[0]) {
        let rest = lemma_trimmed_start_parts(s.skip(1));
        let front = seq![s[0]] + rest;
        assert(s =~= seq![s[0]] + s.skip(1));
        assert(s =~= front + trimmed_start(s));
        front
    } else {
        assert(s =~= Seq::<char>::empty() + s);
        Seq::empty()
    }
}

proof fn lemma_trimmed_end_parts(s: Seq<char>) -> (back: Seq<char>)
    ensures
        s == trimmed_end(s) + back,
        blank(back),
    decreases s.len(),
{
    if s.len() > 0 && white_space(s.last()) {
        let rest = lemma_trimmed_end_parts(s.drop_last());
        let back = rest + seq![s.last()];
        assert(s =~= s.drop_last() + seq![s.last()]);
        assert(s =~= trimmed_end(s) + back);
        back
    } else {
        assert(s =~= s + Seq::<char>::empty());
        Seq::empty()
    }
}

/// The code points that are white space.
pub proof fn white_space_code_points(c: char)
    ensures
        white_space(c) <==> {
            let code = c as int;
            ||| 9 <= code <= 13
            ||| code == 32
            ||| code == 133
            ||| code == 160
            ||| code == 5760
            ||| 8192 <= code <= 8202
            ||| code == 8232
            ||| code == 8233
            ||| code == 8239
            ||| code == 8287
            ||| code == 12288
        },
{
}

/// A line ends at the first line feed, and a carriage return right before that does not
/// belong to it; what follows are the other lines. A text without a line feed is one line,
/// and an empty text none.
pub proof fn lines_one_by_one(line: Seq<char>, rest: Seq<char>)
    requires
        !line.contains('\n'),
    ensures
        lines(line.push('\r').push('\n') + rest) == seq![line] + lines(rest),
        line.len() == 0 || line.last() != '\r' ==> lines(line.push('\n') + rest) == seq![line]
            + lines(rest),
        line.len() > 0 ==> lines(line) == seq![line],
        lines(Seq::empty()) == Seq::<Seq<char>>::empty(),
{
    lemma_cut_joined(line, '\n', rest);
    let returned = line.push('\r');
    assert(!returned.contains('\n')) by {
        if returned.contains('\n') {
            let i = returned.index_of('\n');
            if i < line.len() {
                assert(line[i] == '\n');
            }
        }
    }
    lemma_cut_joined(returned, '\n', rest);
    assert(returned.drop_last() =~= line);
    line.index_of_first_ensures('\n');
}

/// The texts of a list are those of its strings, in their order.
pub proof fn texts_one_by_one(list: Seq<String>, i: int)
    requires
        0 <= i < list.len(),
    ensures
        texts(list).len() == list.len(),
        texts(list)[i] == list[i]@,
{
}

} // verus!
