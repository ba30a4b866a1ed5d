//! Text handling over character sequences: splitting into fields, substring
//! search, trimming and unsigned decimal literals.
//!
//! Every function views a string as its sequence of characters (`s@`), so an
//! index is a character index and a length is a number of characters.

use vstd::prelude::*;
use vstd::string::StrSliceExecFns;

verus! {

/// The characters of `s`, in order.
pub fn chars_of(s: &str) -> (chars: Vec<char>)
    ensures
        chars@ == s@,
{
    let mut chars: Vec<char> = Vec::new();
    for c in it: s.chars()
        invariant
            chars@ == it.seq().take(it.index() as int),
            it.seq() == s@,
    {
        chars.push(c);
    }
    chars
}

/// The texts of `names`, each as its characters.
pub open spec fn texts(names: Seq<String>) -> Seq<Seq<char>> {
    names.map_values(|name: String| name@)
}

/// Whether two slices hold the same characters.
pub fn chars_eq(a: &[char], b: &[char]) -> (same: bool)
    ensures
        same == (a@ == b@),
{
    if a.len() != b.len() {
        return false;
    }
    let mut i: usize = 0;
    while i < a.len()
        invariant
            i <= a.len(),
            a.len() == b.len(),
            forall|k: int| 0 <= k < i ==> a@[k] == b@[k],
        decreases a.len() - i,
    {
        if a[i] != b[i] {
            return false;
        }
        i += 1;
    }
    assert(a@ =~= b@);
    true
}

/// Position of the first `c` in `s`, or the length of `s` where it holds none.
pub open spec fn index_of(s: Seq<char>, c: char) -> int
    decreases s.len(),
{
    if s.len() == 0 || s[0] == c {
        0
    } else {
        1 + index_of(s.drop_first(), c)
    }
}

/// The fields of `s` between occurrences of `sep`. A text without `sep` is one
/// field; a trailing `sep` is followed by an empty field.
pub open spec fn split(s: Seq<char>, sep: char) -> Seq<Seq<char>>
    decreases s.len(),
{
    let i = index_of(s, sep);
    if 0 <= i < s.len() {
        seq![s.take(i)] + split(s.skip(i + 1), sep)
    } else {
        seq![s]
    }
}

/// `index_of` finds `j` when no earlier position holds `c` and `j` is either
/// the end of `s` or a position that holds `c`.
pub proof fn lemma_index_of(s: Seq<char>, c: char, j: int)
    requires
        0 <= j <= s.len(),
        forall|k: int| 0 <= k < j ==> s[k] != c,
        j < s.len() ==> s[j] == c,
    ensures
        index_of(s, c) == j,
    decreases j,
{
    if j > 0 {
        let rest = s.drop_first();
        assert forall|k: int| 0 <= k < j - 1 implies rest[k] != c by {
            assert(rest[k] == s[k + 1]);
        }
        lemma_index_of(rest, c, j - 1);
    }
}

/// Every field of a split is free of the separator, and a split is never empty.
pub proof fn lemma_split_fields(s: Seq<char>, sep: char)
    ensures
        split(s, sep).len() >= 1,
        forall|k: int, j: int|
            0 <= k < split(s, sep).len() && 0 <= j < split(s, sep)[k].len() ==> split(
                s,
                sep,
            )[k][j] != sep,
    decreases s.len(),
{
    let i = index_of(s, sep);
    lemma_index_of_bounds(s, sep);
    if 0 <= i < s.len() {
        lemma_split_fields(s.skip(i + 1), sep);
        let rest = split(s.skip(i + 1), sep);
        assert forall|k: int, j: int|
            0 <= k < split(s, sep).len() && 0 <= j < split(s, sep)[k].len() implies split(
            s,
            sep,
        )[k][j] != sep by {
            if k == 0 {
                assert(split(s, sep)[0] == s.take(i));
            } else {
                assert(split(s, sep)[k] == rest[k - 1]);
            }
        }
    }
}

/// `index_of` lies within the text, names a separator when inside it, and
/// nothing before it is one.
pub proof fn lemma_index_of_bounds(s: Seq<char>, c: char)
    ensures
        0 <= index_of(s, c) <= s.len(),
        index_of(s, c) < s.len() ==> s[index_of(s, c)] == c,
        forall|k: int| 0 <= k < index_of(s, c) ==> s[k] != c,
    decreases s.len(),
{
    if s.len() > 0 && s[0] != c {
        let rest = s.drop_first();
        lemma_index_of_bounds(rest, c);
        assert forall|k: int| 0 <= k < index_of(s, c) implies s[k] != c by {
            if k > 0 {
                assert(rest[k - 1] == s[k]);
            }
        }
    }
}

/// The fields that `bounds` cuts out of `s`: field `k` runs from
/// `bounds[k].0` up to, not including, `bounds[k].1`.
pub open spec fn fields_at(s: Seq<char>, bounds: Seq<(usize, usize)>) -> Seq<Seq<char>> {
    Seq::new(bounds.len(), |k: int| s.subrange(bounds[k].0 as int, bounds[k].1 as int))
}

/// Whether every pair of `bounds` is a range inside a text of `len` characters.
pub open spec fn bounds_within(bounds: Seq<(usize, usize)>, len: nat) -> bool {
    forall|k: int| 0 <= k < bounds.len() ==> (#[trigger] bounds[k]).0 <= bounds[k].1 <= len
}

/// Where the fields of `chars` lie, split at `sep`.
pub fn split_bounds(chars: &[char], sep: char) -> (bounds: Vec<(usize, usize)>)
    ensures
        bounds_within(bounds@, chars@.len()),
        fields_at(chars@, bounds@) == split(chars@, sep),
{
    let ghost s = chars@;
    let mut bounds: Vec<(usize, usize)> = Vec::new();
    let mut start: usize = 0;
    let mut i: usize = 0;
    assert(s.skip(0) =~= s);
    assert(fields_at(s, bounds@) + split(s.skip(0), sep) =~= split(s, sep));
    while i < chars.len()
        invariant
            s == chars@,
            start <= i <= chars.len(),
            bounds_within(bounds@, s.len()),
            forall|k: int| start <= k < i ==> s[k] != sep,
            fields_at(s, bounds@) + split(s.skip(start as int), sep) == split(s, sep),
        decreases chars.len() - i,
    {
        if chars[i] == sep {
            proof {
                let t = s.skip(start as int);
                assert forall|k: int| 0 <= k < i - start implies t[k] != sep by {
                    assert(t[k] == s[start + k]);
                }
                lemma_index_of(t, sep, i - start);
                assert(t.take(i - start) =~= s.subrange(start as int, i as int));
                assert(t.skip(i - start + 1) =~= s.skip(i + 1));
                assert(fields_at(s, bounds@.push((start, i))) =~= fields_at(s, bounds@) + seq![
                    s.subrange(start as int, i as int),
                ]);
            }
            bounds.push((start, i));
            start = i + 1;
        }
        i += 1;
    }
    proof {
        let t = s.skip(start as int);
        assert forall|k: int| 0 <= k < t.len() implies t[k] != sep by {
            assert(t[k] == s[start + k]);
        }
        lemma_index_of(t, sep, t.len() as int);
        assert(t =~= s.subrange(start as int, s.len() as int));
        assert(fields_at(s, bounds@.push((start, chars.len()))) =~= fields_at(s, bounds@) + seq![
            s.subrange(start as int, s.len() as int),
        ]);
    }
    bounds.push((start, chars.len()));
    bounds
}

/// Whether `needle` stands in `hay` at position `i`.
pub open spec fn occurs_at(hay: Seq<char>, needle: Seq<char>, i: int) -> bool {
    0 <= i && i + needle.len() <= hay.len() && hay.subrange(i, i + needle.len()) == needle
}

/// Whether `i` is the first position at which `needle` stands in `hay`.
pub open spec fn first_occurrence(hay: Seq<char>, needle: Seq<char>, i: int) -> bool {
    occurs_at(hay, needle, i) && forall|j: int| 0 <= j < i ==> !occurs_at(hay, needle, j)
}

/// Whether `needle` stands anywhere in `hay`.
pub open spec fn contains(hay: Seq<char>, needle: Seq<char>) -> bool {
    exists|i: int| occurs_at(hay, needle, i)
}

/// The first position at which `needle` stands in `hay`, if it stands there
/// at all.
pub open spec fn position(hay: Seq<char>, needle: Seq<char>) -> Option<int> {
    if contains(hay, needle) {
        Some(choose|i: int| first_occurrence(hay, needle, i))
    } else {
        None
    }
}

/// Nothing but the first occurrence is the `position`.
pub proof fn lemma_position(hay: Seq<char>, needle: Seq<char>, i: int)
    requires
        first_occurrence(hay, needle, i),
    ensures
        position(hay, needle) == Some(i),
{
    let c = choose|c: int| first_occurrence(hay, needle, c);
    assert(first_occurrence(hay, needle, c));
    if c < i {
        assert(!occurs_at(hay, needle, c));
    }
    if i < c {
        assert(!occurs_at(hay, needle, i));
    }
}

/// Whether `s` begins with `prefix`.
pub open spec fn starts_with(s: Seq<char>, prefix: Seq<char>) -> bool {
    occurs_at(s, prefix, 0)
}

/// Whether `needle` stands in `hay` at position `at`.
pub fn matches_at(hay: &[char], needle: &[char], at: usize) -> (found: bool)
    ensures
        found == occurs_at(hay@, needle@, at as int),
{
    if needle.len() > hay.len() || at > hay.len() - needle.len() {
        return false;
    }
    let mut k: usize = 0;
    while k < needle.len()
        invariant
            k <= needle.len(),
            at + needle.len() <= hay.len(),
            forall|j: int| 0 <= j < k ==> hay@[at + j] == needle@[j],
        decreases needle.len() - k,
    {
        if hay[at + k] != needle[k] {
            assert(hay@.subrange(at as int, at + needle@.len())[k as int] != needle@[k as int]);
            return false;
        }
        k += 1;
    }
    assert(hay@.subrange(at as int, at + needle@.len()) =~= needle@);
    true
}

/// The first position at which `needle` stands in `hay`, if it does.
pub fn find(hay: &[char], needle: &[char]) -> (found: Option<usize>)
    ensures
        match found {
            Some(i) => first_occurrence(hay@, needle@, i as int) && position(hay@, needle@)
                == Some(i as int),
            None => !contains(hay@, needle@) && position(hay@, needle@) is None,
        },
{
    if needle.len() > hay.len() {
        return None;
    }
    let last = hay.len() - needle.len();
    let mut i: usize = 0;
    while i < last
        invariant
            i <= last,
            last == hay.len() - needle.len(),
            needle.len() <= hay.len(),
            forall|j: int| 0 <= j < i ==> !occurs_at(hay@, needle@, j),
        decreases last - i,
    {
        if matches_at(hay, needle, i) {
            proof {
                lemma_position(hay@, needle@, i as int);
            }
            return Some(i);
        }
        i += 1;
    }
    if matches_at(hay, needle, last) {
        proof {
            lemma_position(hay@, needle@, last as int);
        }
        Some(last)
    } else {
        None
    }
}

/// Whether `c` is white space: a tab, a line feed, a vertical tab, a form
/// feed, a carriage return, a blank, a next line, a no-break blank, or one of
/// the blanks and separators that Unicode has beyond them.
pub open spec fn white_space(c: char) -> bool {
    ||| '\u{9}' <= c <= '\u{d}'
    ||| c == ' '
    ||| c == '\u{85}'
    ||| c == '\u{a0}'
    ||| c == '\u{1680}'
    ||| '\u{2000}' <= c <= '\u{200a}'
    ||| c == '\u{2028}'
    ||| c == '\u{2029}'
    ||| c == '\u{202f}'
    ||| c == '\u{205f}'
    ||| c == '\u{3000}'
}

/// Whether `c` is white space.
pub fn is_whitespace(c: char) -> (white: bool)
    ensures
        white == white_space(c),
{
    (c >= '\u{9}' && c <= '\u{d}') || c == ' ' || c == '\u{85}' || c == '\u{a0}' || c
        == '\u{1680}' || (c >= '\u{2000}' && c <= '\u{200a}') || c == '\u{2028}' || c
        == '\u{2029}' || c == '\u{202f}' || c == '\u{205f}' || c == '\u{3000}'
}

/// `s` without its leading white space.
pub open spec fn trim_start(s: Seq<char>) -> Seq<char>
    decreases s.len(),
{
    if s.len() > 0 && white_space(s[0]) {
        trim_start(s.drop_first())
    } else {
        s
    }
}

/// `s` without its trailing white space.
pub open spec fn trim_end(s: Seq<char>) -> Seq<char>
    decreases s.len(),
{
    if s.len() > 0 && white_space(s.last()) {
        trim_end(s.drop_last())
    } else {
        s
    }
}

/// `s` without leading and trailing white space.
pub open spec fn trim(s: Seq<char>) -> Seq<char> {
    trim_end(trim_start(s))
}

/// The range of `chars[from..]` that is left when white space is removed from
/// both of its ends.
pub fn trim_bounds(chars: &[char], from: usize) -> (range: (usize, usize))
    requires
        from <= chars@.len(),
    ensures
        from <= range.0 <= range.1 <= chars@.len(),
        chars@.subrange(range.0 as int, range.1 as int) == trim(chars@.skip(from as int)),
{
    let ghost s = chars@;
    let mut a: usize = from;
    while a < chars.len() && is_whitespace(chars[a])
        invariant
            s == chars@,
            from <= a <= chars.len(),
            trim_start(s.skip(a as int)) == trim_start(s.skip(from as int)),
        decreases chars.len() - a,
    {
        assert(s.skip(a as int).drop_first() =~= s.skip(a + 1));
        a += 1;
    }
    assert(trim_start(s.skip(from as int)) == s.skip(a as int));
    let mut b: usize = chars.len();
    assert(s.subrange(a as int, b as int) =~= s.skip(a as int));
    while b > a && is_whitespace(chars[b - 1])
        invariant
            s == chars@,
            a <= b <= chars.len(),
            trim_end(s.subrange(a as int, b as int)) == trim_end(s.skip(a as int)),
        decreases b - a,
    {
        assert(s.subrange(a as int, b as int).drop_last() =~= s.subrange(a as int, b - 1));
        b -= 1;
    }
    (a, b)
}

/// Whether `c` is one of the decimal digits `0` to `9`.
pub open spec fn is_digit(c: char) -> bool {
    '0' <= c <= '9'
}

/// The number that the decimal digit `c` stands for.
pub open spec fn digit_value(c: char) -> nat {
    (c as u32 - '0' as u32) as nat
}

/// Whether `s` holds decimal digits only.
pub open spec fn all_digits(s: Seq<char>) -> bool {
    forall|i: int| 0 <= i < s.len() ==> is_digit(#[trigger] s[i])
}

/// The number that the decimal digits `s` write, most significant first.
pub open spec fn decimal_value(s: Seq<char>) -> nat
    decreases s.len(),
{
    if s.len() == 0 {
        0
    } else {
        decimal_value(s.drop_last()) * 10 + digit_value(s.last())
    }
}

/// The number that `s` writes as an unsigned decimal literal no greater than
/// `max`: an optional `+`, then at least one digit and nothing else.
pub open spec fn unsigned_literal(s: Seq<char>, max: nat) -> Option<nat> {
    let digits = if s.len() > 0 && s[0] == '+' {
        s.drop_first()
    } else {
        s
    };
    if digits.len() > 0 && all_digits(digits) && decimal_value(digits) <= max {
        Some(decimal_value(digits))
    } else {
        None
    }
}

/// A prefix of a digit string writes no greater a number than the whole.
pub proof fn lemma_decimal_prefix(s: Seq<char>, k: int)
    requires
        0 <= k <= s.len(),
    ensures
        decimal_value(s.take(k)) <= decimal_value(s),
    decreases s.len() - k,
{
    if k < s.len() {
        lemma_decimal_prefix(s, k + 1);
        assert(s.take(k + 1).drop_last() =~= s.take(k));
    } else {
        assert(s.take(k) =~= s);
    }
}

/// Reads `chars` as an unsigned decimal literal no greater than `max`.
pub fn parse_unsigned(chars: &[char], max: u64) -> (value: Option<u64>)
    ensures
        match value {
            Some(v) => unsigned_literal(chars@, max as nat) == Some(v as nat),
            None => unsigned_literal(chars@, max as nat) is None,
        },
{
    let ghost s = chars@;
    let first: usize = if chars.len() > 0 && chars[0] == '+' {
        1
    } else {
        0
    };
    let ghost digits = if s.len() > 0 && s[0] == '+' {
        s.drop_first()
    } else {
        s
    };
    assert(digits =~= s.skip(first as int));
    if first == chars.len() {
        return None;
    }
    let mut acc: u64 = 0;
    let mut i: usize = first;
    assert(digits.take(0) =~= Seq::<char>::empty());
    while i < chars.len()
        invariant
            s == chars@,
            digits == s.skip(first as int),
            digits.len() > 0,
            unsigned_literal(s, max as nat) == (if all_digits(digits) && decimal_value(digits)
                <= max {
                Some(decimal_value(digits))
            } else {
                None
            }),
            first <= i <= chars.len(),
            all_digits(digits.take(i - first)),
            acc == decimal_value(digits.take(i - first)),
            acc <= max,
        decreases chars.len() - i,
    {
        let c = chars[i];
        assert(digits[i - first] == c);
        if !(c >= '0' && c <= '9') {
            return None;
        }
        let d: u64 = (c as u32 - '0' as u32) as u64;
        proof {
            assert(digits.take(i - first + 1).drop_last() =~= digits.take(i - first));
            assert(digits.take(i - first + 1).last() == c);
            lemma_decimal_prefix(digits, i - first + 1);
        }
        let next: u128 = acc as u128 * 10 + d as u128;
        if next > max as u128 {
            return None;
        }
        acc = next as u64;
        i += 1;
    }
    assert(digits.take(i - first) =~= digits);
    Some(acc)
}

/// What stands in `line` behind the first `marker`, without the white space
/// around it; nothing where the line does not hold the marker.
pub open spec fn after_marker(line: Seq<char>, marker: Seq<char>) -> Option<Seq<char>> {
    match position(line, marker) {
        Some(i) => Some(trim(line.skip(i + marker.len()))),
        None => None,
    }
}

/// What stands behind the marker in the first of `lines` that holds it.
pub open spec fn first_after_marker(lines: Seq<Seq<char>>, marker: Seq<char>) -> Option<
    Seq<char>,
>
    decreases lines.len(),
{
    if lines.len() == 0 {
        None
    } else {
        match after_marker(lines[0], marker) {
            Some(text) => Some(text),
            None => first_after_marker(lines.drop_first(), marker),
        }
    }
}

/// The text behind the first `marker` in `line`, trimmed.
pub fn trimmed_after(line: &str, marker: &str) -> (text: Option<String>)
    ensures
        match text {
            Some(text) => after_marker(line@, marker@) == Some(text@),
            None => after_marker(line@, marker@) is None,
        },
{
    let chars = chars_of(line);
    let word = chars_of(marker);
    match find(chars.as_slice(), word.as_slice()) {
        Some(at) => {
            assert(occurs_at(chars@, word@, at as int));
            let total = chars.len();
            assert(at + word@.len() <= total);
            let (from, to) = trim_bounds(chars.as_slice(), at + word.len());
            Some(line.substring_char(from, to).to_owned())
        },
        None => None,
    }
}

/// The trimmed text behind `marker` in the first of `lines` that holds it.
pub fn first_trimmed_after(lines: &Vec<String>, marker: &str) -> (text: Option<String>)
    ensures
        match text {
            Some(text) => first_after_marker(texts(lines@), marker@) == Some(text@),
            None => first_after_marker(texts(lines@), marker@) is None,
        },
{
    let ghost all = texts(lines@);
    let mut i: usize = 0;
    assert(all.skip(0) =~= all);
    while i < lines.len()
        invariant
            i <= lines.len(),
            all == texts(lines@),
            first_after_marker(all, marker@) == first_after_marker(all.skip(i as int), marker@),
        decreases lines.len() - i,
    {
        proof {
            assert(all.skip(i as int)[0] == lines@[i as int]@);
            assert(all.skip(i as int).drop_first() =~= all.skip(i + 1));
        }
        match trimmed_after(lines[i].as_str(), marker) {
            Some(text) => {
                return Some(text);
            },
            None => {},
        }
        i += 1;
    }
    None
}

/// Whether `line` is the text `text`.
pub fn is_text(chars: &[char], text: &str) -> (same: bool)
    ensures
        same == (chars@ == text@),
{
    let expected = chars_of(text);
    chars_eq(chars, expected.as_slice())
}

/// The part of `chars` that the `k`th pair of `bounds` cuts out.
pub fn field<'a>(chars: &'a [char], bounds: &Vec<(usize, usize)>, k: usize) -> (part: &'a [char])
    requires
        bounds_within(bounds@, chars@.len()),
        k < bounds.len(),
    ensures
        part@ == fields_at(chars@, bounds@)[k as int],
{
    let (from, to) = bounds[k];
    assert(bounds@[k as int].0 <= bounds@[k as int].1 <= chars@.len());
    vstd::slice::slice_subrange(chars, from, to)
}

} // verus!
