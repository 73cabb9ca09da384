//! The string operations the rest of the crate is built from, each stated over `Seq<char>`.

use vstd::prelude::*;
use vstd::utf8::encode_utf8;

verus! {

/// The views of the elements of a sequence, in order.
pub open spec fn views<T: View>(items: Seq<T>) -> Seq<T::V> {
    items.map_values(|item: T| item@)
}

/// The number of leading characters of `s` that are not `c`; `s.len()` where `c` does not occur.
pub open spec fn position(s: Seq<char>, c: char) -> int
    decreases s.len(),
{
    if s.len() == 0 || s[0] == c {
        0
    } else {
        1 + position(s.skip(1), c)
    }
}

/// The text before and after the first `c`.
pub open spec fn split_once(s: Seq<char>, c: char) -> Option<(Seq<char>, Seq<char>)> {
    if 0 <= position(s, c) < s.len() {
        Some((s.take(position(s, c)), s.skip(position(s, c) + 1)))
    } else {
        None
    }
}

/// The pieces of `s` between the occurrences of `c`; always at least one.
pub open spec fn split(s: Seq<char>, c: char) -> Seq<Seq<char>>
    decreases s.len(),
{
    if 0 <= position(s, c) < s.len() {
        seq![s.take(position(s, c))] + split(s.skip(position(s, c) + 1), c)
    } else {
        seq![s]
    }
}

/// The characters with the Unicode property `White_Space`.
pub open spec fn is_white(c: char) -> bool {
    ||| '\u{9}' <= c <= '\u{d}'
    ||| c == '\u{20}'
    ||| c == '\u{85}'
    ||| c == '\u{a0}'
    ||| c == '\u{1680}'
    ||| '\u{2000}' <= c <= '\u{200a}'
    ||| c == '\u{2028}'
    ||| c == '\u{2029}'
    ||| c == '\u{202f}'
    ||| c == '\u{205f}'
    ||| c == '\u{3000}'
}

/// `s` without its leading white space.
pub open spec fn trim_start(s: Seq<char>) -> Seq<char>
    decreases s.len(),
{
    if s.len() > 0 && is_white(s[0]) {
        trim_start(s.skip(1))
    } else {
        s
    }
}

/// `s` without its trailing white space.
pub open spec fn trim_end(s: Seq<char>) -> Seq<char>
    decreases s.len(),
{
    if s.len() > 0 && is_white(s.last()) {
        trim_end(s.drop_last())
    } else {
        s
    }
}

/// `s` without the white space at either end.
pub open spec fn trim(s: Seq<char>) -> Seq<char> {
    trim_end(trim_start(s))
}

/// `s` without its trailing occurrences of `c`.
pub open spec fn trim_end_char(s: Seq<char>, c: char) -> Seq<char>
    decreases s.len(),
{
    if s.len() > 0 && s.last() == c {
        trim_end_char(s.drop_last(), c)
    } else {
        s
    }
}

/// Whether `needle` occurs in `s` as a run of adjacent characters.
pub open spec fn has_text(s: Seq<char>, needle: Seq<char>) -> bool {
    exists|i: int|
        0 <= i <= s.len() - needle.len() && #[trigger] s.subrange(i, i + needle.len()) == needle
}

/// Whether `s` begins with `prefix`.
pub open spec fn has_prefix(s: Seq<char>, prefix: Seq<char>) -> bool {
    prefix.len() <= s.len() && s.take(prefix.len() as int) == prefix
}

/// `c` with the letters `A` to `Z` in lower case.
pub open spec fn ascii_lower_char(c: char) -> char {
    if 'A' <= c <= 'Z' {
        ((c as u32) + 32) as char
    } else {
        c
    }
}

/// `s` with the letters `A` to `Z` in lower case and every other character kept.
pub open spec fn ascii_lower(s: Seq<char>) -> Seq<char> {
    s.map_values(|c: char| ascii_lower_char(c))
}

/// The digit of value `n`.
pub open spec fn digit(n: int) -> char {
    (48 + n) as char
}

/// `n` in decimal.
pub open spec fn decimal(n: int) -> Seq<char>
    decreases n,
{
    if 0 <= n < 10 {
        seq![digit(n)]
    } else if n >= 10 {
        decimal(n / 10).push(digit(n % 10))
    } else {
        Seq::empty()
    }
}

/// The characters before the first `c` are exactly the leading run that is free of `c`.
pub proof fn lemma_position(s: Seq<char>, c: char)
    ensures
        0 <= position(s, c) <= s.len(),
        forall|j: int| 0 <= j < position(s, c) ==> s[j] != c,
        position(s, c) < s.len() ==> s[position(s, c)] == c,
    decreases s.len(),
{
    if s.len() > 0 && s[0] != c {
        let rest = s.skip(1);
        lemma_position(rest, c);
        assert forall|j: int| 0 <= j < position(s, c) implies s[j] != c by {
            if j > 0 {
                assert(s[j] == rest[j - 1]);
            }
        }
        if 0 <= position(s, c) < s.len() {
            assert(s[position(s, c)] == rest[position(rest, c)]);
        }
    }
}

/// The characters of `s`, in order.
pub fn chars_of(s: &str) -> (r: Vec<char>)
    ensures
        r@ == s@,
{
    let mut r: Vec<char> = Vec::new();
    for c in it: s.chars()
        invariant
            it.seq() == s@,
            r@ == s@.take(it.index()),
    {
        r.push(c);
    }
    assert(s@.take(s@.len() as int) == s@);
    r
}

/// Whether two texts are the same.
pub fn same_text(a: &str, b: &str) -> (r: bool)
    ensures
        r == (a@ == b@),
{
    a.to_owned() == b.to_owned()
}

/// The number of characters of `s` before the first `c`.
pub fn find_char(s: &str, c: char) -> (r: usize)
    ensures
        r == position(s@, c),
{
    let chars = chars_of(s);
    let mut i: usize = 0;
    while i < chars.len() && chars[i] != c
        invariant
            chars@ == s@,
            i <= chars.len(),
            forall|j: int| 0 <= j < i ==> s@[j] != c,
        decreases chars.len() - i,
    {
        i = i + 1;
    }
    proof {
        lemma_position(s@, c);
        let p = position(s@, c);
        if i < p {
            assert(s@[i as int] != c);
        }
        if p < i {
            assert(s@[p] == c);
        }
    }
    i
}

/// `s` cut at its first `c`, or nothing where `c` does not occur.
pub fn cut_once(s: &str, c: char) -> (r: Option<(String, String)>)
    ensures
        match r {
            Some(pair) => split_once(s@, c) == Some((pair.0@, pair.1@)),
            None => split_once(s@, c) is None,
        },
{
    let at = find_char(s, c);
    let total = s.unicode_len();
    proof {
        lemma_position(s@, c);
    }
    if at < total {
        let head = s.substring_char(0, at).to_owned();
        let tail = s.substring_char(at + 1, total).to_owned();
        assert(head@ == s@.take(at as int));
        assert(tail@ == s@.skip(at + 1));
        Some((head, tail))
    } else {
        None
    }
}

/// The pieces of `s` between the occurrences of `c`.
pub fn cut_all(s: &str, c: char) -> (r: Vec<String>)
    ensures
        views(r@) == split(s@, c),
        r@.len() >= 1,
{
    let mut pieces: Vec<String> = Vec::new();
    let mut rest: String = s.to_owned();
    let mut cut = cut_once(rest.as_str(), c);
    assert(views(pieces@) + split(rest@, c) == split(s@, c));
    while cut.is_some()
        invariant
            views(pieces@) + split(rest@, c) == split(s@, c),
            match cut {
                Some(pair) => split_once(rest@, c) == Some((pair.0@, pair.1@)),
                None => split_once(rest@, c) is None,
            },
        decreases rest@.len(),
    {
        let ghost before = pieces@;
        let ghost old_rest = rest@;
        let (head, tail) = cut.unwrap();
        proof {
            lemma_position(old_rest, c);
            assert(split(old_rest, c) == seq![head@] + split(tail@, c));
        }
        pieces.push(head);
        assert(views(pieces@) == views(before).push(head@));
        assert(views(pieces@) + split(tail@, c) == views(before) + split(old_rest, c));
        rest = tail;
        cut = cut_once(rest.as_str(), c);
    }
    let ghost before = pieces@;
    let ghost last = rest@;
    assert(split(last, c) == seq![last]);
    pieces.push(rest);
    assert(views(pieces@) == views(before).push(last));
    assert(views(before) + seq![last] == views(before).push(last));
    pieces
}

/// Whether `c` is white space.
pub fn white(c: char) -> (r: bool)
    ensures
        r == is_white(c),
{
    ('\u{9}' <= c && c <= '\u{d}') || c == '\u{20}' || c == '\u{85}' || c == '\u{a0}' || c
        == '\u{1680}' || ('\u{2000}' <= c && c <= '\u{200a}') || c == '\u{2028}' || c == '\u{2029}'
        || c == '\u{202f}' || c == '\u{205f}' || c == '\u{3000}'
}

/// `s` without the white space at either end.
pub fn trimmed(s: &str) -> (r: String)
    ensures
        r@ == trim(s@),
{
    let chars = chars_of(s);
    let mut lo: usize = 0;
    assert(s@.skip(0) == s@);
    while lo < chars.len() && white(chars[lo])
        invariant
            chars@ == s@,
            lo <= chars.len(),
            trim_start(s@.skip(lo as int)) == trim_start(s@),
        decreases chars.len() - lo,
    {
        assert(s@.skip(lo as int).skip(1) == s@.skip(lo + 1));
        lo = lo + 1;
    }
    let ghost started = s@.skip(lo as int);
    assert(trim_start(s@) == started);
    let mut hi: usize = chars.len();
    assert(s@.subrange(lo as int, hi as int) == started);
    while hi > lo && white(chars[hi - 1])
        invariant
            chars@ == s@,
            lo <= hi <= chars.len(),
            trim_end(s@.subrange(lo as int, hi as int)) == trim_end(started),
        decreases hi,
    {
        assert(s@.subrange(lo as int, hi as int).drop_last() == s@.subrange(lo as int, hi - 1));
        hi = hi - 1;
    }
    s.substring_char(lo, hi).to_owned()
}

/// `s` without its trailing occurrences of `c`.
pub fn trimmed_end_char(s: &str, c: char) -> (r: String)
    ensures
        r@ == trim_end_char(s@, c),
{
    let chars = chars_of(s);
    let mut hi: usize = chars.len();
    assert(s@.subrange(0, hi as int) == s@);
    while hi > 0 && chars[hi - 1] == c
        invariant
            chars@ == s@,
            hi <= chars.len(),
            trim_end_char(s@.subrange(0, hi as int), c) == trim_end_char(s@, c),
        decreases hi,
    {
        assert(s@.subrange(0, hi as int).drop_last() == s@.subrange(0, hi - 1));
        hi = hi - 1;
    }
    s.substring_char(0, hi).to_owned()
}

/// What follows `prefix`, where `s` begins with it.
pub fn after_prefix(s: &str, prefix: &str) -> (r: Option<String>)
    ensures
        r is Some == has_prefix(s@, prefix@),
        r matches Some(rest) ==> rest@ == s@.skip(prefix@.len() as int),
{
    let total = s.unicode_len();
    let n = prefix.unicode_len();
    if n <= total && same_text(s.substring_char(0, n), prefix) {
        assert(s@.take(n as int) == s@.subrange(0, n as int));
        let rest = s.substring_char(n, total).to_owned();
        assert(rest@ == s@.skip(n as int));
        Some(rest)
    } else {
        assert(n <= total ==> s@.take(n as int) == s@.subrange(0, n as int));
        None
    }
}

/// Whether `needle` occurs in `s`.
pub fn contains_text(s: &str, needle: &str) -> (r: bool)
    ensures
        r == has_text(s@, needle@),
{
    let total = s.unicode_len();
    let n = needle.unicode_len();
    if n > total {
        return false;
    }
    let mut i: usize = 0;
    while i <= total - n
        invariant
            total == s@.len(),
            n == needle@.len(),
            n <= total,
            i <= total - n + 1,
            forall|j: int| 0 <= j < i ==> #[trigger] s@.subrange(j, j + n) != needle@,
        decreases total - n + 1 - i,
    {
        if same_text(s.substring_char(i, i + n), needle) {
            return true;
        }
        if i == total - n {
            return false;
        }
        i = i + 1;
    }
    false
}

/// Whether `s`, with its ASCII letters in lower case, is `word`.
pub fn lower_is(s: &str, word: &str) -> (r: bool)
    ensures
        r == (ascii_lower(s@) == word@),
{
    let a = chars_of(s);
    let b = chars_of(word);
    if a.len() != b.len() {
        return false;
    }
    let mut i: usize = 0;
    while i < a.len()
        invariant
            a@ == s@,
            b@ == word@,
            a.len() == b.len(),
            i <= a.len(),
            forall|j: int| 0 <= j < i ==> ascii_lower(s@)[j] == #[trigger] word@[j],
        decreases a.len() - i,
    {
        if lower_char(a[i]) != b[i] {
            assert(ascii_lower(s@)[i as int] != word@[i as int]);
            return false;
        }
        i = i + 1;
    }
    assert(ascii_lower(s@) == word@);
    true
}

/// Whether two texts are the same, whatever the case of their ASCII letters.
pub fn same_lower(a: &str, b: &str) -> (r: bool)
    ensures
        r == (ascii_lower(a@) == ascii_lower(b@)),
{
    let x = chars_of(a);
    let y = chars_of(b);
    if x.len() != y.len() {
        assert(ascii_lower(a@).len() != ascii_lower(b@).len());
        return false;
    }
    let mut i: usize = 0;
    while i < x.len()
        invariant
            x@ == a@,
            y@ == b@,
            x.len() == y.len(),
            i <= x.len(),
            forall|j: int| 0 <= j < i ==> ascii_lower(a@)[j] == #[trigger] ascii_lower(b@)[j],
        decreases x.len() - i,
    {
        if lower_char(x[i]) != lower_char(y[i]) {
            assert(ascii_lower(a@)[i as int] != ascii_lower(b@)[i as int]);
            return false;
        }
        i = i + 1;
    }
    assert(ascii_lower(a@) == ascii_lower(b@));
    true
}

/// `c` with the letters `A` to `Z` in lower case.
fn lower_char(c: char) -> (r: char)
    ensures
        r == ascii_lower_char(c),
{
    if 'A' <= c && c <= 'Z' {
        let n: u8 = c as u8;
        (n + 32) as char
    } else {
        c
    }
}

/// The one-character text of a digit.
fn digit_text(n: u64) -> (r: &'static str)
    requires
        n < 10,
    ensures
        r@ == seq![digit(n as int)],
{
    proof {
        reveal_strlit("0");
        reveal_strlit("1");
        reveal_strlit("2");
        reveal_strlit("3");
        reveal_strlit("4");
        reveal_strlit("5");
        reveal_strlit("6");
        reveal_strlit("7");
        reveal_strlit("8");
        reveal_strlit("9");
    }
    if n == 0 {
        "0"
    } else if n == 1 {
        "1"
    } else if n == 2 {
        "2"
    } else if n == 3 {
        "3"
    } else if n == 4 {
        "4"
    } else if n == 5 {
        "5"
    } else if n == 6 {
        "6"
    } else if n == 7 {
        "7"
    } else if n == 8 {
        "8"
    } else {
        "9"
    }
}

/// `n` in decimal.
pub fn decimal_text(n: u64) -> (r: String)
    ensures
        r@ == decimal(n as int),
    decreases n,
{
    if n < 10 {
        digit_text(n).to_owned()
    } else {
        let mut r = decimal_text(n / 10);
        let ghost head = r@;
        r.append(digit_text(n % 10));
        assert(r@ == head.push(digit(n as int % 10)));
        r
    }
}

/// `a` followed by `b`.
pub fn join(a: &str, b: &str) -> (r: String)
    ensures
        r@ == a@ + b@,
{
    let mut r: String = a.to_owned();
    r.append(b);
    r
}

/// `a`, `b` and `c` in a row.
pub fn join3(a: &str, b: &str, c: &str) -> (r: String)
    ensures
        r@ == a@ + b@ + c@,
{
    let mut r: String = join(a, b);
    r.append(c);
    r
}

/// Appends the bytes of a text.
pub fn push_bytes(bytes: &mut Vec<u8>, text: &str)
    ensures
        final(bytes)@ == old(bytes)@ + encode_utf8(text@),
{
    let ghost start = bytes@;
    let more = text.as_bytes();
    let mut i: usize = 0;
    while i < more.len()
        invariant
            i <= more.len(),
            more@ == encode_utf8(text@),
            bytes@ =~= start + more@.take(i as int),
        decreases more.len() - i,
    {
        bytes.push(more[i]);
        i = i + 1;
    }
    assert(more@.take(more.len() as int) =~= more@);
}

/// Whether a character is a decimal digit.
pub open spec fn is_digit(c: char) -> bool {
    '0' <= c <= '9'
}

/// The value of some decimal digits.
pub open spec fn digits_value(digits: Seq<char>) -> int
    decreases digits.len(),
{
    if digits.len() == 0 {
        0
    } else {
        digits_value(digits.drop_last()) * 10 + (digits.last() as int - 48)
    }
}

/// Whether a text holds digits only.
pub open spec fn all_digits(text: Seq<char>) -> bool {
    forall|i: int| 0 <= i < text.len() ==> is_digit(#[trigger] text[i])
}

/// A text without its leading plus sign, where it has one.
pub open spec fn without_plus(text: Seq<char>) -> Seq<char> {
    if text.len() > 0 && text[0] == '+' {
        text.skip(1)
    } else {
        text
    }
}

/// The number that a text writes in decimal, with or without a leading plus sign; none where it
/// holds anything else, holds no digit, or exceeds 64 bits.
pub open spec fn number_of(text: Seq<char>) -> Option<int> {
    let digits = without_plus(text);
    if digits.len() > 0 && all_digits(digits) && digits_value(digits) <= u64::MAX {
        Some(digits_value(digits))
    } else {
        None
    }
}

/// More digits never make a smaller number.
proof fn lemma_digits_grow(digits: Seq<char>, i: int)
    requires
        0 <= i <= digits.len(),
        forall|j: int| 0 <= j < digits.len() ==> is_digit(digits[j]),
    ensures
        0 <= digits_value(digits.take(i)) <= digits_value(digits),
    decreases digits.len(),
{
    if digits.len() == 0 {
        assert(digits.take(i) =~= digits);
    } else {
        let rest = digits.drop_last();
        lemma_digits_grow(rest, 0);
        assert(rest.take(0).len() == 0);
        assert(is_digit(digits[digits.len() - 1]));
        if i == digits.len() {
            assert(digits.take(i) =~= digits);
        } else {
            lemma_digits_grow(rest, i);
            assert(rest.take(i) =~= digits.take(i));
        }
    }
}

/// Reads a number of at most 64 bits.
pub fn parse_number(text: &str) -> (r: Option<u64>)
    ensures
        match r {
            Some(n) => number_of(text@) == Some(n as int),
            None => number_of(text@) is None,
        },
{
    let chars = chars_of(text);
    let start: usize = if chars.len() > 0 && chars[0] == '+' {
        1
    } else {
        0
    };
    if start == chars.len() {
        return None;
    }
    let ghost digits = without_plus(text@);
    assert(digits =~= text@.skip(start as int));
    let mut i: usize = start;
    while i < chars.len()
        invariant
            start <= i <= chars.len(),
            chars@ == text@,
            digits == text@.skip(start as int),
            digits == without_plus(text@),
            forall|j: int| 0 <= j < i - start ==> is_digit(digits[j]),
        decreases chars.len() - i,
    {
        let c = chars[i];
        assert(digits[i - start] == c);
        if !('0' <= c && c <= '9') {
            return None;
        }
        i = i + 1;
    }
    let mut n: u64 = 0;
    i = start;
    assert(digits.take(0).len() == 0);
    while i < chars.len()
        invariant
            start <= i <= chars.len(),
            chars@ == text@,
            digits == text@.skip(start as int),
            digits == without_plus(text@),
            all_digits(digits),
            n == digits_value(digits.take(i - start)),
        decreases chars.len() - i,
    {
        let c = chars[i];
        let ghost k = i - start;
        proof {
            assert(digits[k] == c);
            assert(is_digit(digits[k]));
            assert(digits.take(k + 1).drop_last() =~= digits.take(k));
            lemma_digits_grow(digits, k + 1);
        }
        let wide: u128 = n as u128 * 10 + (c as u32 - 48) as u128;
        if wide > 0xffff_ffff_ffff_ffff {
            return None;
        }
        n = wide as u64;
        i = i + 1;
    }
    assert(digits.take(digits.len() as int) =~= digits);
    Some(n)
}

/// Trimming adds no character.
pub proof fn lemma_trim_adds_nothing(s: Seq<char>)
    ensures
        forall|i: int| 0 <= i < trim(s).len() ==> s.contains(#[trigger] trim(s)[i]),
{
    lemma_trim_start_adds_nothing(s);
    lemma_trim_end_adds_nothing(trim_start(s));
    assert forall|i: int| 0 <= i < trim(s).len() implies s.contains(#[trigger] trim(s)[i]) by {
        let k = trim_start(s).index_of(trim(s)[i]);
        assert(s.contains(trim_start(s)[k]));
    }
}

proof fn lemma_trim_start_adds_nothing(s: Seq<char>)
    ensures
        forall|i: int| 0 <= i < trim_start(s).len() ==> s.contains(#[trigger] trim_start(s)[i]),
    decreases s.len(),
{
    if s.len() > 0 && is_white(s[0]) {
        let rest = s.skip(1);
        lemma_trim_start_adds_nothing(rest);
        assert forall|i: int| 0 <= i < trim_start(s).len() implies s.contains(
            #[trigger] trim_start(s)[i],
        ) by {
            let k = rest.index_of(trim_start(rest)[i]);
            assert(s[k + 1] == rest[k]);
        }
    }
}

proof fn lemma_trim_end_adds_nothing(s: Seq<char>)
    ensures
        forall|i: int| 0 <= i < trim_end(s).len() ==> s.contains(#[trigger] trim_end(s)[i]),
    decreases s.len(),
{
    if s.len() > 0 && is_white(s.last()) {
        let rest = s.drop_last();
        lemma_trim_end_adds_nothing(rest);
        assert forall|i: int| 0 <= i < trim_end(s).len() implies s.contains(
            #[trigger] trim_end(s)[i],
        ) by {
            let k = rest.index_of(trim_end(rest)[i]);
            assert(s[k] == rest[k]);
        }
    }
}

/// Splitting adds no character.
pub proof fn lemma_split_adds_nothing(s: Seq<char>, c: char)
    ensures
        forall|k: int, i: int|
            0 <= k < split(s, c).len() && 0 <= i < split(s, c)[k].len() ==> s.contains(
                #[trigger] split(s, c)[k][i],
            ),
    decreases s.len(),
{
    let p = position(s, c);
    if 0 <= p < s.len() {
        let rest = s.skip(p + 1);
        lemma_split_adds_nothing(rest, c);
        assert forall|k: int, i: int|
            0 <= k < split(s, c).len() && 0 <= i < split(s, c)[k].len() implies s.contains(
            #[trigger] split(s, c)[k][i],
        ) by {
            if k == 0 {
                assert(s[i] == split(s, c)[k][i]);
            } else {
                assert(split(s, c)[k] == split(rest, c)[k - 1]);
                let j = rest.index_of(split(rest, c)[k - 1][i]);
                assert(s[j + p + 1] == rest[j]);
            }
        }
    }
}

/// Cutting a text gives back its parts: nothing but the separator is lost, and the first part
/// holds none. Nothing is cut exactly where there is no separator.
pub proof fn cutting_loses_only_the_separator(s: Seq<char>, c: char)
    ensures
        match split_once(s, c) {
            Some((head, tail)) => s.contains(c) && s == head + seq![c] + tail && !head.contains(
                c,
            ),
            None => !s.contains(c),
        },
{
    lemma_position(s, c);
    match split_once(s, c) {
        Some((head, tail)) => {
            assert(s[head.len() as int] == c);
            assert(s =~= head + seq![c] + tail);
        },
        None => {},
    }
}

/// Two parts that are put together with a separator come apart at that place, where the first
/// part holds no separator.
pub proof fn joined_parts_are_cut_apart(head: Seq<char>, c: char, tail: Seq<char>)
    requires
        !head.contains(c),
    ensures
        split_once(head + seq![c] + tail, c) == Some((head, tail)),
{
    let s = head + seq![c] + tail;
    lemma_position(s, c);
    assert(s[head.len() as int] == c);
    let p = position(s, c);
    if p < head.len() {
        assert(head[p] == s[p]);
    }
    assert(p == head.len());
    assert(s.take(p) =~= head);
    assert(s.skip(p + 1) =~= tail);
}

/// A text is split at every separator: what stands before the first one is the first piece, what
/// follows is split likewise, and a text without separators is one piece.
pub proof fn pieces_stand_between_separators(head: Seq<char>, c: char, tail: Seq<char>)
    requires
        !head.contains(c),
    ensures
        split(head, c) == seq![head],
        split(head + seq![c] + tail, c) == seq![head] + split(tail, c),
{
    joined_parts_are_cut_apart(head, c, tail);
    lemma_position(head, c);
    lemma_position(head + seq![c] + tail, c);
}

/// Trimming takes away the white space at both ends and nothing else.
pub proof fn trimming_takes_white_space_only(
    before: Seq<char>,
    middle: Seq<char>,
    after: Seq<char>,
)
    requires
        forall|i: int| 0 <= i < before.len() ==> is_white(#[trigger] before[i]),
        forall|i: int| 0 <= i < after.len() ==> is_white(#[trigger] after[i]),
        middle.len() > 0 ==> !is_white(middle[0]) && !is_white(middle.last()),
    ensures
        trim(before + middle + after) == middle,
{
    lemma_trim_start_skips(before, middle + after);
    assert(before + middle + after =~= before + (middle + after));
    if middle.len() == 0 {
        assert(middle + after =~= after + middle);
        lemma_trim_start_skips(after, middle);
        assert(trim_start(middle) =~= middle);
    } else {
        assert((middle + after)[0] == middle[0]);
        lemma_trim_end_skips(middle, after);
    }
}

proof fn lemma_trim_start_skips(before: Seq<char>, rest: Seq<char>)
    requires
        forall|i: int| 0 <= i < before.len() ==> is_white(#[trigger] before[i]),
    ensures
        trim_start(before + rest) == trim_start(rest),
    decreases before.len(),
{
    if before.len() > 0 {
        let s = before + rest;
        assert(s[0] == before[0]);
        assert(s.skip(1) =~= before.skip(1) + rest);
        lemma_trim_start_skips(before.skip(1), rest);
    } else {
        assert(before + rest =~= rest);
    }
}

proof fn lemma_trim_end_skips(rest: Seq<char>, after: Seq<char>)
    requires
        forall|i: int| 0 <= i < after.len() ==> is_white(#[trigger] after[i]),
        rest.len() > 0,
        !is_white(rest.last()),
    ensures
        trim_end(rest + after) == rest,
    decreases after.len(),
{
    let s = rest + after;
    if after.len() > 0 {
        assert(s.last() == after.last());
        assert(after.last() == after[after.len() - 1]);
        assert(s.drop_last() =~= rest + after.drop_last());
        lemma_trim_end_skips(rest, after.drop_last());
    } else {
        assert(s =~= rest);
    }
}

/// No letter, digit or punctuation mark of ASCII is white space; the space, the tab and the ends
/// of lines are.
pub proof fn visible_ascii_is_not_white(c: char)
    ensures
        '!' <= c <= '~' ==> !is_white(c),
        c == ' ' || c == '\t' || c == '\n' || c == '\r' ==> is_white(c),
{
}

/// Taking a character away from the end of a text takes all of its last ones and nothing else.
pub proof fn trimming_a_character_takes_that_only(rest: Seq<char>, c: char, n: nat)
    requires
        rest.len() > 0 ==> rest.last() != c,
    ensures
        trim_end_char(rest + Seq::new(n, |i: int| c), c) == rest,
    decreases n,
{
    let s = rest + Seq::new(n, |i: int| c);
    if n > 0 {
        let fewer = (n - 1) as nat;
        assert(s.drop_last() =~= rest + Seq::new(fewer, |i: int| c));
        trimming_a_character_takes_that_only(rest, c, fewer);
    } else {
        assert(s =~= rest);
    }
}

/// A text holds another exactly where it is that one with something before and behind it.
pub proof fn holding_a_text(before: Seq<char>, needle: Seq<char>, after: Seq<char>)
    ensures
        has_text(before + needle + after, needle),
        has_prefix(needle + after, needle),
{
    let s = before + needle + after;
    let at = before.len() as int;
    assert(s.subrange(at, at + needle.len()) =~= needle);
    assert((needle + after).take(needle.len() as int) =~= needle);
}

/// What a text holds can be cut out of it.
pub proof fn held_text_can_be_cut_out(s: Seq<char>, needle: Seq<char>)
    ensures
        has_text(s, needle) ==> exists|before: Seq<char>, after: Seq<char>| s == #[trigger] (before
            + needle + after),
        has_prefix(s, needle) ==> exists|after: Seq<char>| s == #[trigger] (needle + after),
{
    if has_text(s, needle) {
        let at = choose|at: int|
            0 <= at <= s.len() - needle.len() && #[trigger] s.subrange(at, at + needle.len())
                == needle;
        assert(s =~= s.take(at) + needle + s.skip(at + needle.len()));
    }
    if has_prefix(s, needle) {
        assert(s =~= needle + s.skip(needle.len() as int));
    }
}

/// Lower case changes the letters `A` to `Z` to `a` to `z`, each by itself, and nothing else.
pub proof fn lower_case_changes_capitals_only(s: Seq<char>, i: int)
    requires
        0 <= i < s.len(),
    ensures
        ascii_lower(s).len() == s.len(),
        'A' <= s[i] <= 'Z' ==> ascii_lower(s)[i] as int - 'a' as int == s[i] as int - 'A' as int,
        !('A' <= s[i] <= 'Z') ==> ascii_lower(s)[i] == s[i],
        ascii_lower(ascii_lower(s)) == ascii_lower(s),
{
    assert(ascii_lower(ascii_lower(s)) =~= ascii_lower(s));
}

/// A number that is written in decimal, with any zeros before it and with or without a plus
/// sign, is read as that number.
pub proof fn written_numbers_are_read_back(n: u64, zeros: nat)
    ensures
        number_of(Seq::new(zeros, |i: int| '0') + decimal(n as int)) == Some(n as int),
        number_of(seq!['+'] + Seq::new(zeros, |i: int| '0') + decimal(n as int)) == Some(n as int),
{
    let pad = Seq::new(zeros, |i: int| '0');
    let text = pad + decimal(n as int);
    lemma_decimal(n as int);
    lemma_leading_zeros(zeros, decimal(n as int));
    assert(all_digits(text));
    assert(text[0] != '+');
    assert(without_plus(text) == text);
    let signed = seq!['+'] + pad + decimal(n as int);
    assert(without_plus(signed) =~= text);
}

proof fn lemma_decimal(n: int)
    requires
        n >= 0,
    ensures
        decimal(n).len() > 0,
        all_digits(decimal(n)),
        digits_value(decimal(n)) == n,
    decreases n,
{
    if n < 10 {
        assert(digits_value(decimal(n).drop_last()) == 0);
        assert(decimal(n).last() == digit(n));
    } else {
        lemma_decimal(n / 10);
        assert(decimal(n).drop_last() =~= decimal(n / 10));
        assert(decimal(n).last() == digit(n % 10));
    }
}

proof fn lemma_leading_zeros(zeros: nat, digits: Seq<char>)
    ensures
        digits_value(Seq::new(zeros, |i: int| '0') + digits) == digits_value(digits),
    decreases digits.len(), zeros,
{
    let text = Seq::new(zeros, |i: int| '0') + digits;
    if digits.len() > 0 {
        assert(text.drop_last() =~= Seq::new(zeros, |i: int| '0') + digits.drop_last());
        lemma_leading_zeros(zeros, digits.drop_last());
    } else if zeros > 0 {
        let fewer = (zeros - 1) as nat;
        assert(text.drop_last() =~= Seq::new(fewer, |i: int| '0') + digits);
        lemma_leading_zeros(fewer, digits);
    } else {
        assert(text =~= digits);
    }
}

/// A number is written without zeros before it.
pub proof fn numbers_are_written_without_padding(n: int)
    requires
        n > 0,
    ensures
        decimal(n)[0] != '0',
    decreases n,
{
    if n >= 10 {
        numbers_are_written_without_padding(n / 10);
        lemma_decimal(n / 10);
        assert(decimal(n)[0] == decimal(n / 10)[0]);
    }
}

/// A text is no number where it holds anything but digits behind an optional plus sign, or no
/// digit at all.
pub proof fn other_texts_are_no_numbers(text: Seq<char>, i: int)
    requires
        ({
            ||| text.len() == 0
            ||| text == seq!['+']
            ||| 0 <= i < text.len() && !('0' <= text[i] <= '9') && !(i == 0 && text[i] == '+')
        }),
    ensures
        number_of(text) is None,
{
    let digits = without_plus(text);
    if text.len() > 0 && text != seq!['+'] {
        if digits.len() == text.len() {
            assert(!is_digit(digits[i]));
        } else {
            assert(digits[i - 1] == text[i]);
        }
    } else if text.len() > 0 {
        assert(digits.len() == 0);
    }
}

/// The views of some elements are theirs, each in its place.
pub proof fn views_keep_their_places<T: View>(items: Seq<T>, i: int)
    requires
        0 <= i < items.len(),
    ensures
        views(items).len() == items.len(),
        views(items)[i] == items[i]@,
{
}

/// White space is exactly what Unicode calls so: these 25 code points.
pub proof fn white_space_is_that_of_unicode(c: char)
    ensures
        is_white(c) == seq![
            0x9, 0xa, 0xb, 0xc, 0xd, 0x20, 0x85, 0xa0,
            0x1680, 0x2000, 0x2001, 0x2002, 0x2003, 0x2004, 0x2005, 0x2006,
            0x2007, 0x2008, 0x2009, 0x200a, 0x2028, 0x2029, 0x202f, 0x205f,
            0x3000,
        ].contains(c as int),
{
    let table: Seq<int> = seq![
        0x9, 0xa, 0xb, 0xc, 0xd, 0x20, 0x85, 0xa0,
        0x1680, 0x2000, 0x2001, 0x2002, 0x2003, 0x2004, 0x2005, 0x2006,
        0x2007, 0x2008, 0x2009, 0x200a, 0x2028, 0x2029, 0x202f, 0x205f,
        0x3000,
    ];
    let n = c as int;
    assert(table[0] == 0x9);
    assert(table[1] == 0xa);
    assert(table[2] == 0xb);
    assert(table[3] == 0xc);
    assert(table[4] == 0xd);
    assert(table[5] == 0x20);
    assert(table[6] == 0x85);
    assert(table[7] == 0xa0);
    assert(table[8] == 0x1680);
    assert(table[9] == 0x2000);
    assert(table[10] == 0x2001);
    assert(table[11] == 0x2002);
    assert(table[12] == 0x2003);
    assert(table[13] == 0x2004);
    assert(table[14] == 0x2005);
    assert(table[15] == 0x2006);
    assert(table[16] == 0x2007);
    assert(table[17] == 0x2008);
    assert(table[18] == 0x2009);
    assert(table[19] == 0x200a);
    assert(table[20] == 0x2028);
    assert(table[21] == 0x2029);
    assert(table[22] == 0x202f);
    assert(table[23] == 0x205f);
    assert(table[24] == 0x3000);
}

} // verus!
