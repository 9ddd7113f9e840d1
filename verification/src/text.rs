//! Text as sequences of characters: searching, numbers in decimal, padding.

use vstd::prelude::*;
use vstd::string::StringExecFns;

verus! {

/// `String::push` of the standard library appends one character to the end of the string.
pub assume_specification[ String::push ](s: &mut String, c: char)
    ensures
        final(s)@ == old(s)@.push(c),
;

/// The characters of a string, in order.
pub fn chars_of(s: &str) -> (out: Vec<char>)
    ensures
        out@ == s@,
{
    let mut out: Vec<char> = Vec::new();
    for c in it: s.chars()
        invariant
            out@ == s@.take(it.index() as int),
            it.seq() == s@,
    {
        out.push(c);
    }
    assert(s@.take(s@.len() as int) == s@);
    out
}

/// The string made of the given characters.
pub fn string_of(cs: &Vec<char>) -> (out: String)
    ensures
        out@ == cs@,
{
    let mut out = String::new();
    let mut i: usize = 0;
    while i < cs.len()
        invariant
            i <= cs.len(),
            out@ == cs@.take(i as int),
        decreases cs.len() - i,
    {
        out.push(cs[i]);
        i = i + 1;
        assert(out@ == cs@.take(i as int));
    }
    assert(cs@.take(cs@.len() as int) == cs@);
    out
}

// Searching.
/// `needle` stands in `hay` at position `i`.
pub open spec fn occurs_at<T>(hay: Seq<T>, needle: Seq<T>, i: int) -> bool {
    0 <= i && i + needle.len() <= hay.len() && hay.subrange(i, i + needle.len()) == needle
}

/// The first position at or after `i` where `needle` stands in `hay`.
pub open spec fn first_from<T>(hay: Seq<T>, needle: Seq<T>, i: int) -> Option<int>
    decreases hay.len() - i + 1,
{
    if i < 0 || i + needle.len() > hay.len() {
        None
    } else if occurs_at(hay, needle, i) {
        Some(i)
    } else {
        first_from(hay, needle, i + 1)
    }
}

/// The first position where `needle` stands in `hay`.
pub open spec fn first<T>(hay: Seq<T>, needle: Seq<T>) -> Option<int> {
    first_from(hay, needle, 0)
}

/// The last position at or before `i` where `needle` stands in `hay`.
pub open spec fn last_from<T>(hay: Seq<T>, needle: Seq<T>, i: int) -> Option<int>
    decreases i + 1,
{
    if i < 0 {
        None
    } else if occurs_at(hay, needle, i) {
        Some(i)
    } else {
        last_from(hay, needle, i - 1)
    }
}

/// The last position where `needle` stands in `hay`.
pub open spec fn last<T>(hay: Seq<T>, needle: Seq<T>) -> Option<int> {
    last_from(hay, needle, hay.len() - needle.len())
}

/// `first` finds an occurrence with none before it, or there is none at all.
pub proof fn law_first<T>(hay: Seq<T>, needle: Seq<T>)
    ensures
        match first(hay, needle) {
            Some(i) => occurs_at(hay, needle, i) && forall|j: int|
                0 <= j < i ==> !occurs_at(hay, needle, j),
            None => forall|j: int| !occurs_at(hay, needle, j),
        },
{
    lemma_first_from(hay, needle, 0);
}

proof fn lemma_first_from<T>(hay: Seq<T>, needle: Seq<T>, from: int)
    requires
        0 <= from,
    ensures
        match first_from(hay, needle, from) {
            Some(i) => from <= i && occurs_at(hay, needle, i) && forall|j: int|
                from <= j < i ==> !occurs_at(hay, needle, j),
            None => forall|j: int| from <= j ==> !occurs_at(hay, needle, j),
        },
    decreases hay.len() - from + 1,
{
    if from + needle.len() <= hay.len() && !occurs_at(hay, needle, from) {
        lemma_first_from(hay, needle, from + 1);
    }
}

/// `last` finds an occurrence with none after it, or there is none at all.
pub proof fn law_last<T>(hay: Seq<T>, needle: Seq<T>)
    ensures
        match last(hay, needle) {
            Some(i) => occurs_at(hay, needle, i) && forall|j: int|
                j > i ==> !occurs_at(hay, needle, j),
            None => forall|j: int| !occurs_at(hay, needle, j),
        },
{
    lemma_last_from(hay, needle, hay.len() - needle.len());
}

proof fn lemma_last_from<T>(hay: Seq<T>, needle: Seq<T>, from: int)
    ensures
        match last_from(hay, needle, from) {
            Some(i) => i <= from && occurs_at(hay, needle, i) && forall|j: int|
                i < j <= from ==> !occurs_at(hay, needle, j),
            None => forall|j: int| j <= from ==> !occurs_at(hay, needle, j),
        },
    decreases from + 1,
{
    if from >= 0 && !occurs_at(hay, needle, from) {
        lemma_last_from(hay, needle, from - 1);
    }
}

fn chars_occur_at(hay: &Vec<char>, needle: &Vec<char>, i: usize) -> (r: bool)
    ensures
        r == occurs_at(hay@, needle@, i as int),
{
    if i > hay.len() || needle.len() > hay.len() - i {
        return false;
    }
    let mut k: usize = 0;
    while k < needle.len()
        invariant
            k <= needle.len(),
            i + needle.len() <= hay.len(),
            forall|j: int| 0 <= j < k ==> hay@[i + j] == needle@[j],
        decreases needle.len() - k,
    {
        if hay[i + k] != needle[k] {
            assert(hay@.subrange(i as int, i + needle.len())[k as int] != needle@[k as int]);
            return false;
        }
        k = k + 1;
    }
    assert(hay@.subrange(i as int, i + needle.len()) == needle@);
    true
}

/// The first position at or after `from` where `needle` stands in `hay`.
pub fn find_chars_from(hay: &Vec<char>, needle: &Vec<char>, from: usize) -> (r: Option<usize>)
    ensures
        r is Some <==> first_from(hay@, needle@, from as int) is Some,
        r matches Some(i) ==> first_from(hay@, needle@, from as int) == Some(i as int) && i
            + needle.len() <= hay.len(),
{
    let mut i: usize = from;
    loop
        invariant
            from <= i,
            first_from(hay@, needle@, from as int) == first_from(hay@, needle@, i as int),
        decreases hay.len() - i,
    {
        if i > hay.len() || needle.len() > hay.len() - i {
            return None;
        }
        if chars_occur_at(hay, needle, i) {
            return Some(i);
        }
        if i == hay.len() {
            assert(first_from(hay@, needle@, i + 1) is None);
            return None;
        }
        i = i + 1;
    }
}

/// The first position where `needle` stands in `hay`.
pub fn find_chars(hay: &Vec<char>, needle: &Vec<char>) -> (r: Option<usize>)
    ensures
        r is Some <==> first(hay@, needle@) is Some,
        r matches Some(i) ==> first(hay@, needle@) == Some(i as int) && i + needle.len()
            <= hay.len(),
{
    find_chars_from(hay, needle, 0)
}

/// The last position where `needle` stands in `hay`.
pub fn rfind_chars(hay: &Vec<char>, needle: &Vec<char>) -> (r: Option<usize>)
    ensures
        r is Some <==> last(hay@, needle@) is Some,
        r matches Some(i) ==> last(hay@, needle@) == Some(i as int) && i + needle.len()
            <= hay.len(),
{
    if needle.len() > hay.len() {
        return None;
    }
    let mut i: usize = hay.len() - needle.len();
    loop
        invariant
            i + needle.len() <= hay.len(),
            last(hay@, needle@) == last_from(hay@, needle@, i as int),
        decreases i,
    {
        if chars_occur_at(hay, needle, i) {
            return Some(i);
        }
        if i == 0 {
            assert(last_from(hay@, needle@, -1) is None);
            return None;
        }
        i = i - 1;
    }
}

/// Position of the first occurrence of `needle` in `haystack`.
pub fn find_subslice(haystack: &[u8], needle: &[u8]) -> (r: Option<usize>)
    requires
        needle@.len() > 0,
    ensures
        r is Some <==> first(haystack@, needle@) is Some,
        r matches Some(i) ==> first(haystack@, needle@) == Some(i as int) && i + needle.len()
            <= haystack.len(),
{
    let mut i: usize = 0;
    loop
        invariant
            needle@.len() > 0,
            first(haystack@, needle@) == first_from(haystack@, needle@, i as int),
        decreases haystack.len() - i,
    {
        if i > haystack.len() || needle.len() > haystack.len() - i {
            return None;
        }
        if bytes_occur_at(haystack, needle, i) {
            return Some(i);
        }
        i = i + 1;
    }
}

fn bytes_occur_at(hay: &[u8], needle: &[u8], i: usize) -> (r: bool)
    requires
        i + needle.len() <= hay.len(),
    ensures
        r == occurs_at(hay@, needle@, i as int),
{
    let mut k: usize = 0;
    while k < needle.len()
        invariant
            k <= needle.len(),
            i + needle.len() <= hay.len(),
            forall|j: int| 0 <= j < k ==> hay@[i + j] == needle@[j],
        decreases needle.len() - k,
    {
        if hay[i + k] != needle[k] {
            assert(hay@.subrange(i as int, i + needle.len())[k as int] != needle@[k as int]);
            return false;
        }
        k = k + 1;
    }
    assert(hay@.subrange(i as int, i + needle.len()) == needle@);
    true
}

// Decimal numbers.
/// The character of a digit.
pub open spec fn digit_char(d: nat) -> char {
    (48 + d) as u8 as char
}

/// A decimal digit.
pub open spec fn is_digit(c: char) -> bool {
    '0' <= c <= '9'
}

/// The value of a digit.
pub open spec fn digit_value(c: char) -> nat {
    (c as int - 48) as nat
}

/// A number in decimal, without leading zeros.
pub open spec fn decimal(n: nat) -> Seq<char>
    decreases n,
{
    if n < 10 {
        seq![digit_char(n)]
    } else {
        decimal(n / 10).push(digit_char(n % 10))
    }
}

/// A signed number in decimal.
pub open spec fn signed_decimal(n: int) -> Seq<char> {
    if n < 0 {
        seq!['-'] + decimal((-n) as nat)
    } else {
        decimal(n as nat)
    }
}

/// All characters are decimal digits.
pub open spec fn all_digits(s: Seq<char>) -> bool {
    forall|i: int| 0 <= i < s.len() ==> is_digit(#[trigger] s[i])
}

/// The number that a sequence of digits stands for.
pub open spec fn digits_value(s: Seq<char>) -> nat
    decreases s.len(),
{
    if s.len() == 0 {
        0
    } else {
        10 * digits_value(s.drop_last()) + digit_value(s.last())
    }
}

/// What is left of a number's text behind one leading `+`.
pub open spec fn unsigned_part(s: Seq<char>) -> Seq<char> {
    if s.len() > 0 && s[0] == '+' {
        s.drop_first()
    } else {
        s
    }
}

/// The unsigned 64-bit number that a text stands for: digits behind an optional `+`.
pub open spec fn parsed_u64(s: Seq<char>) -> Option<u64> {
    let body = unsigned_part(s);
    if body.len() > 0 && all_digits(body) && digits_value(body) <= u64::MAX {
        Some(digits_value(body) as u64)
    } else {
        None
    }
}

/// Decimal text holds digits only, at least one, and stands for its number.
pub proof fn lemma_decimal(n: nat)
    ensures
        decimal(n).len() >= 1,
        all_digits(decimal(n)),
        digits_value(decimal(n)) == n,
        n >= 10 ==> decimal(n).len() == decimal(n / 10).len() + 1,
    decreases n,
{
    if n < 10 {
        assert(decimal(n).drop_last() == Seq::<char>::empty());
        assert(digits_value(decimal(n).drop_last()) == 0);
    } else {
        lemma_decimal(n / 10);
        assert(decimal(n).drop_last() == decimal(n / 10));
    }
}

/// What is written in decimal reads back as the same number.
pub proof fn law_decimal_round_trip(n: u64)
    ensures
        parsed_u64(decimal(n as nat)) == Some(n),
{
    lemma_decimal(n as nat);
    assert(is_digit(decimal(n as nat)[0]));
}

/// Nine digits stand for less than a billion.
pub proof fn lemma_digits_bound(s: Seq<char>)
    requires
        s.len() == 9,
        all_digits(s),
    ensures
        digits_value(s) < 1_000_000_000,
{
    lemma_digits_power(s);
    reveal_with_fuel(vstd::arithmetic::power::pow, 10);
}

proof fn lemma_digits_power(s: Seq<char>)
    requires
        all_digits(s),
    ensures
        digits_value(s) < vstd::arithmetic::power::pow(10, s.len()),
    decreases s.len(),
{
    reveal(vstd::arithmetic::power::pow);
    if s.len() > 0 {
        let t = s.drop_last();
        assert forall|i: int| 0 <= i < t.len() implies is_digit(#[trigger] t[i]) by {
            assert(is_digit(s[i]));
        }
        lemma_digits_power(t);
        assert(is_digit(s[s.len() - 1]));
    }
}

/// More digits stand for no less.
proof fn lemma_digits_value_grows(s: Seq<char>, k: int)
    requires
        0 <= k <= s.len(),
    ensures
        digits_value(s.take(k)) <= digits_value(s),
    decreases s.len() - k,
{
    if k < s.len() {
        lemma_digits_value_grows(s, k + 1);
        assert(s.take(k + 1).drop_last() == s.take(k));
    } else {
        assert(s.take(k) == s);
    }
}

/// Parses an unsigned number: decimal digits behind an optional `+`.
pub fn parse_u64(cs: &Vec<char>) -> (r: Option<u64>)
    ensures
        r == parsed_u64(cs@),
{
    let n: usize = cs.len();
    let start: usize = if n > 0 && cs[0] == '+' {
        1
    } else {
        0
    };
    let ghost body = unsigned_part(cs@);
    assert(body == cs@.skip(start as int));
    if start == n {
        return None;
    }
    let mut value: u64 = 0;
    let mut i: usize = start;
    while i < n
        invariant
            n == cs.len(),
            start <= i <= n,
            start <= 1,
            body == unsigned_part(cs@),
            body == cs@.skip(start as int),
            all_digits(body.take(i - start)),
            value == digits_value(body.take(i - start)),
        decreases n - i,
    {
        let c = cs[i];
        assert(body.take(i - start + 1).drop_last() == body.take(i - start));
        assert(body[i - start] == c);
        if c < '0' || c > '9' {
            assert(!is_digit(body[i - start]));
            return None;
        }
        let d: u64 = (c as u32 - 48) as u64;
        proof {
            lemma_digits_value_grows(body, i - start + 1);
            assert(body.take(i - start + 1).last() == c);
        }
        if value > (u64::MAX - d) / 10 {
            assert(10 * value + d > u64::MAX);
            return None;
        }
        assert forall|k: int| 0 <= k < i - start + 1 implies is_digit(
            #[trigger] body.take(i - start + 1)[k],
        ) by {
            if k < i - start {
                assert(is_digit(body.take(i - start)[k]));
            }
        }
        value = 10 * value + d;
        i = i + 1;
    }
    assert(body.take(n - start) == body);
    Some(value)
}

fn digit_of(d: u64) -> (c: char)
    requires
        d < 10,
    ensures
        c == digit_char(d as nat),
{
    (48u8 + d as u8) as char
}

/// Appends a number in decimal.
pub fn push_decimal(out: &mut String, n: u64)
    ensures
        final(out)@ == old(out)@ + decimal(n as nat),
    decreases n,
{
    if n < 10 {
        out.push(digit_of(n));
    } else {
        push_decimal(out, n / 10);
        out.push(digit_of(n % 10));
    }
    assert(out@ == old(out)@ + decimal(n as nat));
}

/// Appends a signed number in decimal.
pub fn push_signed(out: &mut String, n: i64)
    ensures
        final(out)@ == old(out)@ + signed_decimal(n as int),
{
    if n < 0 {
        out.push('-');
        let m: u64 = if n == i64::MIN {
            0x8000_0000_0000_0000
        } else {
            (-n) as u64
        };
        push_decimal(out, m);
    } else {
        push_decimal(out, n as u64);
    }
    assert(out@ == old(out)@ + signed_decimal(n as int));
}

/// A number in decimal.
pub fn u64_text(n: u64) -> (out: String)
    ensures
        out@ == decimal(n as nat),
{
    let mut out = String::new();
    push_decimal(&mut out, n);
    assert(out@ == decimal(n as nat));
    out
}

// Padding.
/// `n` copies of a character.
pub open spec fn repeated(c: char, n: int) -> Seq<char> {
    Seq::new(
        if n < 0 {
            0
        } else {
            n as nat
        },
        |i: int| c,
    )
}

/// A text filled up on the left to `width` characters.
pub open spec fn padded_left(s: Seq<char>, fill: char, width: int) -> Seq<char> {
    repeated(fill, width - s.len()) + s
}

/// A text filled up with blanks on the right to `width` characters.
pub open spec fn padded_right(s: Seq<char>, width: int) -> Seq<char> {
    s + repeated(' ', width - s.len())
}

/// Appends `n` copies of a character.
pub fn push_repeated(out: &mut String, c: char, n: usize)
    ensures
        final(out)@ == old(out)@ + repeated(c, n as int),
{
    let mut i: usize = 0;
    assert(out@ == old(out)@ + repeated(c, 0));
    while i < n
        invariant
            i <= n,
            out@ == old(out)@ + repeated(c, i as int),
        decreases n - i,
    {
        out.push(c);
        i = i + 1;
        assert(out@ == old(out)@ + repeated(c, i as int));
    }
}

/// Appends a text filled up on the left to `width` characters.
pub fn push_padded_left(out: &mut String, s: &str, fill: char, width: usize)
    ensures
        final(out)@ == old(out)@ + padded_left(s@, fill, width as int),
{
    let n: usize = chars_of(s).len();
    if n < width {
        push_repeated(out, fill, width - n);
    }
    out.append(s);
    assert(out@ == old(out)@ + padded_left(s@, fill, width as int));
}

/// Appends a number filled up with blanks on the left to `width` characters.
pub fn push_right(out: &mut String, n: u64, width: usize)
    ensures
        final(out)@ == old(out)@ + padded_left(decimal(n as nat), ' ', width as int),
{
    let t = u64_text(n);
    push_padded_left(out, t.as_str(), ' ', width);
}

/// Appends a number filled up with blanks on the right to `width` characters.
pub fn push_left(out: &mut String, n: u64, width: usize)
    ensures
        final(out)@ == old(out)@ + padded_right(decimal(n as nat), width as int),
{
    let t = u64_text(n);
    push_padded_right(out, t.as_str(), width);
}

/// `true` or `false`.
pub open spec fn bool_text(b: bool) -> Seq<char> {
    if b {
        "true"@
    } else {
        "false"@
    }
}

/// Appends `true` or `false`.
pub fn push_bool(out: &mut String, b: bool)
    ensures
        final(out)@ == old(out)@ + bool_text(b),
{
    if b {
        out.append("true");
    } else {
        out.append("false");
    }
}

/// Appends a text filled up with blanks on the right to `width` characters.
pub fn push_padded_right(out: &mut String, s: &str, width: usize)
    ensures
        final(out)@ == old(out)@ + padded_right(s@, width as int),
{
    let n: usize = chars_of(s).len();
    out.append(s);
    if n < width {
        push_repeated(out, ' ', width - n);
    }
    assert(out@ == old(out)@ + padded_right(s@, width as int));
}

// Fields.
/// The views of strings.
pub open spec fn views(v: Seq<String>) -> Seq<Seq<char>> {
    Seq::new(v.len(), |i: int| v[i]@)
}

/// The parts of a text between occurrences of a separator.
pub open spec fn split(s: Seq<char>, sep: char) -> Seq<Seq<char>>
    decreases s.len(),
{
    match first(s, seq![sep]) {
        Some(i) => if 0 <= i < s.len() {
            seq![s.take(i)] + split(s.skip(i + 1), sep)
        } else {
            seq![s]
        },
        None => seq![s],
    }
}

/// A stretch of a text without the separator that stands between two separators, or between
/// one and an end of the text, is one of the text's parts.
pub proof fn law_split_finds_part(before: Seq<char>, part: Seq<char>, after: Seq<char>, sep: char)
    requires
        before.len() > 0 ==> before.last() == sep,
        after.len() > 0 ==> after[0] == sep,
        !part.contains(sep),
    ensures
        split(before + part + after, sep).contains(part),
    decreases before.len(),
{
    let s = before + part + after;
    let one = seq![sep];
    law_first(s, one);
    assert forall|j: int| 0 <= j < s.len() implies occurs_at(s, one, j) == (s[j] == sep) by {
        assert(s.subrange(j, j + 1)[0] == s[j]);
        if s[j] == sep {
            assert(s.subrange(j, j + 1) == one);
        }
    }
    assert forall|j: int| before.len() <= j < before.len() + part.len() implies s[j] != sep by {
        assert(s[j] == part[j - before.len()]);
    }
    match first(s, one) {
        Some(i) => {
            let rest = s.skip(i + 1);
            if before.len() == 0 {
                assert(s[i] == sep);
                assert(s[part.len() as int] == after[0]);
                assert(occurs_at(s, one, part.len() as int));
                assert(s.take(i) == part);
                assert((seq![s.take(i)] + split(rest, sep))[0] == part);
            } else {
                assert(s[before.len() - 1] == sep);
                assert(rest == before.skip(i + 1) + part + after);
                law_split_finds_part(before.skip(i + 1), part, after, sep);
                let k = choose|k: int|
                    0 <= k < split(rest, sep).len() && split(rest, sep)[k] == part;
                assert((seq![s.take(i)] + split(rest, sep))[k + 1] == part);
            }
        },
        None => {
            if before.len() > 0 {
                assert(s[before.len() - 1] == sep);
            }
            if after.len() > 0 {
                assert(s[(before.len() + part.len()) as int] == sep);
            }
            assert(s == part);
            assert(seq![s][0] == part);
        },
    }
}

/// A character with the Unicode property White_Space.
pub open spec fn white(c: char) -> bool {
    let u = c as u32;
    ||| 0x9 <= u <= 0xD
    ||| u == 0x20
    ||| u == 0x85
    ||| u == 0xA0
    ||| u == 0x1680
    ||| 0x2000 <= u <= 0x200A
    ||| u == 0x2028
    ||| u == 0x2029
    ||| u == 0x202F
    ||| u == 0x205F
    ||| u == 0x3000
}

/// What `stripped` takes off: quotation marks or white space.
pub open spec fn strippable(c: char, quotes: bool) -> bool {
    if quotes {
        c == '"'
    } else {
        white(c)
    }
}

/// A text without the strippable characters at its front.
pub open spec fn stripped_front(s: Seq<char>, quotes: bool) -> Seq<char>
    decreases s.len(),
{
    if s.len() > 0 && strippable(s[0], quotes) {
        stripped_front(s.drop_first(), quotes)
    } else {
        s
    }
}

/// A text without the strippable characters at its end.
pub open spec fn stripped_back(s: Seq<char>, quotes: bool) -> Seq<char>
    decreases s.len(),
{
    if s.len() > 0 && strippable(s.last(), quotes) {
        stripped_back(s.drop_last(), quotes)
    } else {
        s
    }
}

/// A text without the strippable characters at both ends.
pub open spec fn stripped(s: Seq<char>, quotes: bool) -> Seq<char> {
    stripped_back(stripped_front(s, quotes), quotes)
}

/// Copies `cs[from..to]`.
pub fn slice_chars(cs: &Vec<char>, from: usize, to: usize) -> (out: Vec<char>)
    requires
        from <= to <= cs.len(),
    ensures
        out@ == cs@.subrange(from as int, to as int),
{
    let mut out: Vec<char> = Vec::new();
    let mut i: usize = from;
    while i < to
        invariant
            from <= i <= to <= cs.len(),
            out@ == cs@.subrange(from as int, i as int),
        decreases to - i,
    {
        out.push(cs[i]);
        i = i + 1;
        assert(out@ == cs@.subrange(from as int, i as int));
    }
    out
}

/// The views of vectors of characters.
pub open spec fn char_views(v: Seq<Vec<char>>) -> Seq<Seq<char>> {
    Seq::new(v.len(), |i: int| v[i]@)
}

/// Splits a text at each occurrence of a separator.
pub fn split_chars(cs: &Vec<char>, sep: char) -> (out: Vec<Vec<char>>)
    ensures
        char_views(out@) == split(cs@, sep),
        out@.len() >= 1,
{
    let mut out: Vec<Vec<char>> = Vec::new();
    let mut start: usize = 0;
    let mut i: usize = 0;
    let n: usize = cs.len();
    proof {
        assert(cs@.skip(0) == cs@);
        assert(char_views(out@) + split(cs@, sep) == split(cs@, sep));
        assert(cs@.skip(0).take(0) == Seq::<char>::empty());
    }
    while i < n
        invariant
            n == cs.len(),
            start <= i <= n,
            forall|k: int| start <= k < i ==> cs@[k] != sep,
            char_views(out@) + split(cs@.skip(start as int), sep) == split(cs@, sep),
        decreases n - i,
    {
        if cs[i] == sep {
            let ghost rest = cs@.skip(start as int);
            let ghost before = char_views(out@);
            proof {
                lemma_first_char(rest, sep, i - start);
                assert(rest.take(i - start) == cs@.subrange(start as int, i as int));
                assert(rest.skip(i - start + 1) == cs@.skip(i + 1));
            }
            let piece = slice_chars(cs, start, i);
            out.push(piece);
            assert(char_views(out@) == before.push(piece@));
            start = i + 1;
            assert(char_views(out@) + split(cs@.skip(start as int), sep) == before + split(
                rest,
                sep,
            ));
        }
        i = i + 1;
    }
    let ghost rest = cs@.skip(start as int);
    let ghost before = char_views(out@);
    proof {
        lemma_no_char(rest, sep);
        assert(rest == cs@.subrange(start as int, n as int));
    }
    let piece = slice_chars(cs, start, n);
    out.push(piece);
    assert(char_views(out@) == before.push(piece@));
    assert(before + split(rest, sep) == before.push(rest));
    out
}

/// The first occurrence of a single character.
pub proof fn lemma_first_char(s: Seq<char>, c: char, i: int)
    requires
        0 <= i < s.len(),
        s[i] == c,
        forall|k: int| 0 <= k < i ==> s[k] != c,
    ensures
        first(s, seq![c]) == Some(i),
{
    law_first(s, seq![c]);
    assert(s.subrange(i, i + 1) == seq![c]);
    assert(occurs_at(s, seq![c], i));
    let f = first(s, seq![c]);
    if f is None {
        assert(!occurs_at(s, seq![c], i));
    } else {
        let j = f->0;
        assert(s.subrange(j, j + 1)[0] == s[j]);
    }
}

/// A character that does not occur is not found.
pub proof fn lemma_no_char(s: Seq<char>, c: char)
    requires
        forall|k: int| 0 <= k < s.len() ==> s[k] != c,
    ensures
        first(s, seq![c]) is None,
{
    law_first(s, seq![c]);
    if first(s, seq![c]) is Some {
        let j = first(s, seq![c])->0;
        assert(s.subrange(j, j + 1)[0] == s[j]);
    }
}

fn is_strippable(c: char, quotes: bool) -> (r: bool)
    ensures
        r == strippable(c, quotes),
{
    if quotes {
        c == '"'
    } else {
        let u: u32 = c as u32;
        (0x9 <= u && u <= 0xD) || u == 0x20 || u == 0x85 || u == 0xA0 || u == 0x1680 || (0x2000
            <= u && u <= 0x200A) || u == 0x2028 || u == 0x2029 || u == 0x202F || u == 0x205F || u
            == 0x3000
    }
}

/// A copy of a text without the strippable characters at both ends.
pub fn strip_chars(cs: &Vec<char>, quotes: bool) -> (out: Vec<char>)
    ensures
        out@ == stripped(cs@, quotes),
{
    let n: usize = cs.len();
    let mut a: usize = 0;
    assert(cs@.skip(0) == cs@);
    while a < n && is_strippable(cs[a], quotes)
        invariant
            n == cs.len(),
            a <= n,
            stripped_front(cs@, quotes) == stripped_front(cs@.skip(a as int), quotes),
        decreases n - a,
    {
        assert(cs@.skip(a as int).drop_first() == cs@.skip(a + 1));
        a = a + 1;
    }
    let ghost front = cs@.skip(a as int);
    let mut b: usize = n;
    assert(front == cs@.subrange(a as int, b as int));
    while b > a && is_strippable(cs[b - 1], quotes)
        invariant
            n == cs.len(),
            a <= b <= n,
            stripped_back(front, quotes) == stripped_back(
                cs@.subrange(a as int, b as int),
                quotes,
            ),
        decreases b - a,
    {
        assert(cs@.subrange(a as int, b as int).drop_last() == cs@.subrange(a as int, b - 1));
        b = b - 1;
    }
    slice_chars(cs, a, b)
}

// Numbers with a fraction.
/// An ASCII letter in lower case.
pub open spec fn lower(c: char) -> char {
    if 'A' <= c <= 'Z' {
        (c as u8 + 32) as u8 as char
    } else {
        c
    }
}

/// A text with its ASCII letters in lower case.
pub open spec fn lowered(s: Seq<char>) -> Seq<char> {
    Seq::new(s.len(), |i: int| lower(s[i]))
}

/// What is left of a number's text behind one leading sign.
pub open spec fn unsigned_text(s: Seq<char>) -> Seq<char> {
    if s.len() > 0 && (s[0] == '+' || s[0] == '-') {
        s.drop_first()
    } else {
        s
    }
}

/// Digits with at most one point among them, and at least one digit.
pub open spec fn is_mantissa(s: Seq<char>) -> bool {
    match first(s, seq!['.']) {
        Some(i) => s.len() >= 2 && all_digits(s.take(i)) && all_digits(s.skip(i + 1)),
        None => s.len() >= 1 && all_digits(s),
    }
}

/// A mantissa, and behind a letter `e` an exponent.
pub open spec fn is_number(s: Seq<char>) -> bool {
    match first(lowered(s), seq!['e']) {
        Some(i) => is_mantissa(s.take(i)) && ({
            let exp = unsigned_text(s.skip(i + 1));
            exp.len() >= 1 && all_digits(exp)
        }),
        None => is_mantissa(s),
    }
}

/// A text that reads as a floating-point number: a number, an infinity or no number at
/// all, behind an optional sign and in any case.
pub open spec fn is_float_text(s: Seq<char>) -> bool {
    let t = unsigned_text(s);
    let l = lowered(t);
    l == seq!['i', 'n', 'f'] || l == seq!['i', 'n', 'f', 'i', 'n', 'i', 't', 'y'] || l
        == seq!['n', 'a', 'n'] || is_number(t)
}

/// An ASCII letter in lower case.
pub fn lower_char(c: char) -> (r: char)
    ensures
        r == lower(c),
{
    if 'A' <= c && c <= 'Z' {
        (c as u8 + 32) as char
    } else {
        c
    }
}

/// A copy of a text with its ASCII letters in lower case.
pub fn lower_chars(cs: &Vec<char>) -> (out: Vec<char>)
    ensures
        out@ == lowered(cs@),
{
    let mut out: Vec<char> = Vec::new();
    let mut i: usize = 0;
    while i < cs.len()
        invariant
            i <= cs.len(),
            out@ == lowered(cs@).take(i as int),
        decreases cs.len() - i,
    {
        out.push(lower_char(cs[i]));
        i = i + 1;
        assert(out@ == lowered(cs@).take(i as int));
    }
    assert(lowered(cs@).take(cs@.len() as int) == lowered(cs@));
    out
}

/// Whether two texts are the same.
pub fn same_chars(a: &Vec<char>, b: &Vec<char>) -> (r: bool)
    ensures
        r == (a@ == b@),
{
    if a.len() != b.len() {
        return false;
    }
    let mut i: usize = 0;
    while i < a.len()
        invariant
            i <= a.len(),
            a@.len() == b@.len(),
            forall|k: int| 0 <= k < i ==> a@[k] == b@[k],
        decreases a.len() - i,
    {
        if a[i] != b[i] {
            return false;
        }
        i = i + 1;
    }
    assert(a@ == b@);
    true
}

fn digits_only(cs: &Vec<char>, from: usize, to: usize) -> (r: bool)
    requires
        from <= to <= cs.len(),
    ensures
        r == all_digits(cs@.subrange(from as int, to as int)),
{
    let ghost part = cs@.subrange(from as int, to as int);
    let mut i: usize = from;
    while i < to
        invariant
            from <= i <= to <= cs.len(),
            part == cs@.subrange(from as int, to as int),
            forall|k: int| 0 <= k < i - from ==> is_digit(#[trigger] part[k]),
        decreases to - i,
    {
        let c = cs[i];
        assert(part[i - from] == c);
        if c < '0' || c > '9' {
            assert(!is_digit(part[i - from]));
            return false;
        }
        i = i + 1;
    }
    true
}

fn position(cs: &Vec<char>, c: char) -> (r: Option<usize>)
    ensures
        r is Some <==> first(cs@, seq![c]) is Some,
        r matches Some(i) ==> first(cs@, seq![c]) == Some(i as int) && i < cs.len(),
{
    let mut i: usize = 0;
    while i < cs.len()
        invariant
            i <= cs.len(),
            forall|k: int| 0 <= k < i ==> cs@[k] != c,
        decreases cs.len() - i,
    {
        if cs[i] == c {
            proof {
                lemma_first_char(cs@, c, i as int);
            }
            return Some(i);
        }
        i = i + 1;
    }
    proof {
        lemma_no_char(cs@, c);
    }
    None
}

fn mantissa(cs: &Vec<char>) -> (r: bool)
    ensures
        r == is_mantissa(cs@),
{
    match position(cs, '.') {
        Some(i) => {
            assert(cs@.subrange(0, i as int) == cs@.take(i as int));
            assert(cs@.subrange(i + 1, cs@.len() as int) == cs@.skip(i + 1));
            cs.len() >= 2 && digits_only(cs, 0, i) && digits_only(cs, i + 1, cs.len())
        },
        None => {
            assert(cs@.subrange(0, cs@.len() as int) == cs@);
            cs.len() >= 1 && digits_only(cs, 0, cs.len())
        },
    }
}

fn skip_sign(cs: &Vec<char>) -> (out: Vec<char>)
    ensures
        out@ == unsigned_text(cs@),
{
    let from: usize = if cs.len() > 0 && (cs[0] == '+' || cs[0] == '-') {
        1
    } else {
        0
    };
    assert(cs@.subrange(from as int, cs@.len() as int) == unsigned_text(cs@));
    slice_chars(cs, from, cs.len())
}

fn number(cs: &Vec<char>) -> (r: bool)
    ensures
        r == is_number(cs@),
{
    let l = lower_chars(cs);
    match position(&l, 'e') {
        Some(i) => {
            let head = slice_chars(cs, 0, i);
            let tail = slice_chars(cs, i + 1, cs.len());
            let exp = skip_sign(&tail);
            assert(cs@.subrange(0, i as int) == cs@.take(i as int));
            assert(cs@.subrange(i + 1, cs@.len() as int) == cs@.skip(i + 1));
            assert(exp@.subrange(0, exp@.len() as int) == exp@);
            mantissa(&head) && exp.len() >= 1 && digits_only(&exp, 0, exp.len())
        },
        None => mantissa(cs),
    }
}

/// Whether a text reads as a floating-point number.
pub fn float_text(cs: &Vec<char>) -> (r: bool)
    ensures
        r == is_float_text(cs@),
{
    let t = skip_sign(cs);
    let l = lower_chars(&t);
    let inf: Vec<char> = vec!['i', 'n', 'f'];
    let infinity: Vec<char> = vec!['i', 'n', 'f', 'i', 'n', 'i', 't', 'y'];
    let nan: Vec<char> = vec!['n', 'a', 'n'];
    assert(inf@ == seq!['i', 'n', 'f']);
    assert(infinity@ == seq!['i', 'n', 'f', 'i', 'n', 'i', 't', 'y']);
    assert(nan@ == seq!['n', 'a', 'n']);
    same_chars(&l, &inf) || same_chars(&l, &infinity) || same_chars(&l, &nan) || number(&t)
}

// What the texts are.
/// The first occurrence of a single character at or after a position.
pub proof fn lemma_first_char_from(s: Seq<char>, c: char, from: int, i: int)
    requires
        0 <= from <= i < s.len(),
        s[i] == c,
        forall|k: int| from <= k < i ==> s[k] != c,
    ensures
        first_from(s, seq![c], from) == Some(i),
{
    lemma_first_from(s, seq![c], from);
    assert(s.subrange(i, i + 1) == seq![c]);
    assert(occurs_at(s, seq![c], i));
    let f = first_from(s, seq![c], from);
    if f is Some {
        let j = f->0;
        assert(s.subrange(j, j + 1)[0] == s[j]);
    }
}

/// A character that does not occur from a position on is not found there.
pub proof fn lemma_no_char_from(s: Seq<char>, c: char, from: int)
    requires
        0 <= from,
        forall|k: int| from <= k < s.len() ==> s[k] != c,
    ensures
        first_from(s, seq![c], from) is None,
{
    lemma_first_from(s, seq![c], from);
    if first_from(s, seq![c], from) is Some {
        let j = first_from(s, seq![c], from)->0;
        assert(s.subrange(j, j + 1)[0] == s[j]);
    }
}

/// Parts with a separator between each and the next.
pub open spec fn joined(parts: Seq<Seq<char>>, sep: char) -> Seq<char>
    decreases parts.len(),
{
    if parts.len() == 0 {
        Seq::empty()
    } else if parts.len() == 1 {
        parts[0]
    } else {
        parts[0] + seq![sep] + joined(parts.drop_first(), sep)
    }
}

/// Parts that were joined come apart again: at every separator, and nowhere else.
pub proof fn law_split_undoes_joining(parts: Seq<Seq<char>>, sep: char)
    requires
        parts.len() > 0,
        forall|i: int| 0 <= i < parts.len() ==> !(#[trigger] parts[i]).contains(sep),
    ensures
        split(joined(parts, sep), sep) == parts,
    decreases parts.len(),
{
    let s = joined(parts, sep);
    let head = parts[0];
    assert(!parts[0].contains(sep));
    assert forall|k: int| 0 <= k < head.len() implies head[k] != sep by {
        assert(head.contains(head[k]));
    }
    if parts.len() == 1 {
        lemma_no_char(s, sep);
        assert(split(s, sep) == parts);
    } else {
        let rest = parts.drop_first();
        assert forall|i: int| 0 <= i < rest.len() implies !(#[trigger] rest[i]).contains(sep) by {
            assert(rest[i] == parts[i + 1]);
        }
        law_split_undoes_joining(rest, sep);
        let n = head.len() as int;
        assert(s[n] == sep);
        lemma_first_char(s, sep, n);
        assert(s.take(n) == head);
        assert(s.skip(n + 1) == joined(rest, sep));
        assert(seq![head] + rest == parts);
    }
}

/// Splitting loses nothing: the parts, joined, are the text, and no part holds the
/// separator.
pub proof fn law_joining_undoes_splitting(s: Seq<char>, sep: char)
    ensures
        split(s, sep).len() > 0,
        joined(split(s, sep), sep) == s,
        forall|i: int| 0 <= i < split(s, sep).len() ==> !(#[trigger] split(s, sep)[i]).contains(sep),
    decreases s.len(),
{
    let one = seq![sep];
    let parts = split(s, sep);
    law_first(s, one);
    assert forall|j: int| 0 <= j < s.len() && s[j] == sep implies occurs_at(s, one, j) by {
        assert(s.subrange(j, j + 1) == one);
    }
    match first(s, one) {
        Some(i) => {
            assert(s.subrange(i, i + 1)[0] == s[i]);
            let rest = s.skip(i + 1);
            law_joining_undoes_splitting(rest, sep);
            assert(parts == seq![s.take(i)] + split(rest, sep));
            assert(parts.drop_first() == split(rest, sep));
            assert(parts[0] == s.take(i));
            assert(joined(parts, sep) == s);
            assert forall|k: int| 0 <= k < parts.len() implies !(#[trigger] parts[k]).contains(
                sep,
            ) by {
                if k > 0 {
                    assert(parts[k] == split(rest, sep)[k - 1]);
                } else if s.take(i).contains(sep) {
                    let j = choose|j: int| 0 <= j < s.take(i).len() && s.take(i)[j] == sep;
                    assert(occurs_at(s, one, j));
                }
            }
        },
        None => {
            assert(parts == seq![s]);
            if s.contains(sep) {
                let j = choose|j: int| 0 <= j < s.len() && s[j] == sep;
                assert(occurs_at(s, one, j));
            }
        },
    }
}

proof fn lemma_stripped_front(a: Seq<char>, m: Seq<char>, quotes: bool)
    requires
        forall|i: int| 0 <= i < a.len() ==> strippable(#[trigger] a[i], quotes),
        m.len() == 0 || !strippable(m[0], quotes),
    ensures
        stripped_front(a + m, quotes) == m,
    decreases a.len(),
{
    if a.len() == 0 {
        assert(a + m == m);
    } else {
        assert(strippable(a[0], quotes));
        assert((a + m).drop_first() == a.drop_first() + m);
        lemma_stripped_front(a.drop_first(), m, quotes);
    }
}

proof fn lemma_stripped_back(m: Seq<char>, b: Seq<char>, quotes: bool)
    requires
        forall|i: int| 0 <= i < b.len() ==> strippable(#[trigger] b[i], quotes),
        m.len() == 0 || !strippable(m.last(), quotes),
    ensures
        stripped_back(m + b, quotes) == m,
    decreases b.len(),
{
    if b.len() == 0 {
        assert(m + b == m);
    } else {
        assert(strippable(b[b.len() - 1], quotes));
        assert((m + b).drop_last() == m + b.drop_last());
        lemma_stripped_back(m, b.drop_last(), quotes);
    }
}

/// Stripping takes off everything strippable at both ends, and nothing in between.
pub proof fn law_stripped(a: Seq<char>, m: Seq<char>, b: Seq<char>, quotes: bool)
    requires
        forall|i: int| 0 <= i < a.len() ==> strippable(#[trigger] a[i], quotes),
        forall|i: int| 0 <= i < b.len() ==> strippable(#[trigger] b[i], quotes),
        m.len() > 0,
        !strippable(m[0], quotes),
        !strippable(m.last(), quotes),
    ensures
        stripped(a + m + b, quotes) == m,
{
    assert(a + m + b == a + (m + b));
    lemma_stripped_front(a, m + b, quotes);
    lemma_stripped_back(m, b, quotes);
}

/// Blanks, tabs and line ends are white space; letters, digits, brackets, commas and
/// quotation marks are not, and only quotation marks are taken for them.
pub proof fn law_white_space(c: char)
    ensures
        c == ' ' || c == '\t' || c == '\n' || c == '\r' ==> strippable(c, false),
        is_digit(c) || 'a' <= c <= 'z' || 'A' <= c <= 'Z' ==> !strippable(c, false),
        c == '[' || c == ']' || c == ',' || c == '"' || c == '.' || c == '-' || c == '{' || c == '}'
            ==> !strippable(c, false),
        strippable(c, true) <==> c == '"',
{
}

/// A text of digits stands for the value of its front, shifted by the length of its back,
/// and the value of its back.
pub proof fn law_digits_by_place(a: Seq<char>, b: Seq<char>)
    ensures
        digits_value(a + b) == digits_value(a) * vstd::arithmetic::power::pow(10, b.len())
            + digits_value(b),
    decreases b.len(),
{
    reveal(vstd::arithmetic::power::pow);
    if b.len() == 0 {
        assert(a + b == a);
    } else {
        let h = b.drop_last();
        law_digits_by_place(a, h);
        assert((a + b).drop_last() == a + h);
        let p = vstd::arithmetic::power::pow(10, h.len());
        let v = digits_value(a) as int;
        assert(vstd::arithmetic::power::pow(10, b.len()) == 10 * p);
        assert(10 * (v * p) == v * (10 * p)) by (nonlinear_arith);
    }
}

/// What reads as an unsigned number: an optional plus sign does not count, leading zeros do
/// not count, and an empty text or one with any other character than digits does not read.
pub proof fn law_unsigned_numbers(s: Seq<char>)
    ensures
        all_digits(s) && s.len() > 0 ==> parsed_u64(seq!['+'] + s) == parsed_u64(s),
        all_digits(s) && s.len() > 0 ==> parsed_u64(seq!['0'] + s) == parsed_u64(s),
        all_digits(s) && s.len() > 0 && digits_value(s) <= u64::MAX ==> parsed_u64(s) == Some(
            digits_value(s) as u64,
        ),
        all_digits(s) && digits_value(s) > u64::MAX ==> parsed_u64(s) is None,
        s.len() == 0 ==> parsed_u64(s) is None,
        s.len() > 0 && !is_digit(s.last()) ==> parsed_u64(s) is None,
        s.len() > 0 && !is_digit(s[0]) && s[0] != '+' ==> parsed_u64(s) is None,
        forall|i: int| 0 < i < s.len() && !is_digit(#[trigger] s[i]) ==> parsed_u64(s) is None,
{
    let zero = seq!['0'];
    let plus = seq!['+'];
    assert(zero.drop_last() == Seq::<char>::empty());
    assert(digits_value(zero.drop_last()) == 0);
    assert(digits_value(zero) == 0);
    law_digits_by_place(zero, s);
    if all_digits(s) && s.len() > 0 {
        assert(is_digit(s[0]));
        assert((plus + s).drop_first() == s);
        assert forall|i: int| 0 <= i < (zero + s).len() implies is_digit(
            #[trigger] (zero + s)[i],
        ) by {
            if i > 0 {
                assert(is_digit(s[i - 1]));
            }
        }
        assert(unsigned_part(zero + s) == zero + s);
        assert(unsigned_part(s) == s);
        assert(0 * vstd::arithmetic::power::pow(10, s.len()) == 0) by (nonlinear_arith);
    }
    let body = unsigned_part(s);
    if body.len() > 0 && all_digits(body) {
        assert(is_digit(body[0]));
        assert(is_digit(body[body.len() - 1]));
        assert forall|i: int| 0 < i < s.len() implies is_digit(#[trigger] s[i]) by {
            if s[0] == '+' {
                assert(body[i - 1] == s[i]);
                assert(is_digit(body[i - 1]));
            } else {
                assert(is_digit(body[i]));
            }
        }
    }
}

/// A number in decimal has no leading zero, and a negative one is its magnitude behind a
/// minus sign.
pub proof fn law_decimal_form(n: nat)
    ensures
        n > 0 ==> decimal(n)[0] != '0',
        n == 0 ==> decimal(n) == seq!['0'],
        n > 0 ==> signed_decimal(-(n as int)) == seq!['-'] + decimal(n),
        signed_decimal(n as int) == decimal(n),
    decreases n,
{
    if n >= 10 {
        law_decimal_form(n / 10);
        lemma_decimal(n / 10);
        assert(decimal(n)[0] == decimal(n / 10)[0]);
    }
}

/// Padding brings a text up to a width and leaves the text at its end or at its front; a
/// text that is wide enough stays as it is.
pub proof fn law_padding(s: Seq<char>, fill: char, width: int)
    ensures
        s.len() >= width ==> padded_left(s, fill, width) == s && padded_right(s, width) == s,
        s.len() < width ==> padded_left(s, fill, width).len() == width && padded_right(
            s,
            width,
        ).len() == width,
        s.len() < width ==> padded_left(s, fill, width).skip(width - s.len()) == s,
        s.len() < width ==> padded_right(s, width).take(s.len() as int) == s,
        forall|i: int|
            0 <= i < width - s.len() ==> #[trigger] padded_left(s, fill, width)[i] == fill,
        forall|i: int| s.len() <= i < width ==> #[trigger] padded_right(s, width)[i] == ' ',
{
    if s.len() >= width {
        assert(padded_left(s, fill, width) == s);
        assert(padded_right(s, width) == s);
    } else {
        assert(padded_left(s, fill, width).skip(width - s.len()) == s);
        assert(padded_right(s, width).take(s.len() as int) == s);
    }
}

/// A sign in front does not change whether a text reads as a number.
pub proof fn law_float_signs(s: Seq<char>)
    requires
        s.len() > 0,
        s[0] != '+',
        s[0] != '-',
    ensures
        is_float_text(seq!['-'] + s) == is_float_text(s),
        is_float_text(seq!['+'] + s) == is_float_text(s),
{
    assert(unsigned_text(seq!['-'] + s) == s);
    assert(unsigned_text(seq!['+'] + s) == s);
    assert(unsigned_text(s) == s);
}

proof fn lemma_number_without_exponent(s: Seq<char>)
    requires
        forall|i: int| 0 <= i < s.len() ==> is_digit(#[trigger] s[i]) || s[i] == '.',
    ensures
        is_number(s) == is_mantissa(s),
{
    let l = lowered(s);
    assert forall|k: int| 0 <= k < l.len() implies l[k] != 'e' by {
        assert(is_digit(s[k]) || s[k] == '.');
    }
    lemma_no_char(l, 'e');
}

/// Digits read as a number, with a point anywhere among them and with a sign in front; a
/// point alone does not.
pub proof fn law_decimals_read_as_numbers(a: Seq<char>, b: Seq<char>)
    requires
        all_digits(a),
        all_digits(b),
    ensures
        is_float_text(a + seq!['.'] + b) <==> a.len() + b.len() > 0,
        is_float_text(a) <==> a.len() > 0,
{
    let p = a + seq!['.'] + b;
    let n = a.len() as int;
    assert forall|i: int| 0 <= i < p.len() implies is_digit(#[trigger] p[i]) || p[i] == '.' by {
        if i < n {
            assert(is_digit(a[i]));
        } else if i > n {
            assert(is_digit(b[i - n - 1]));
        }
    }
    assert forall|k: int| 0 <= k < n implies p[k] != '.' by {
        assert(is_digit(a[k]));
    }
    lemma_first_char(p, '.', n);
    assert(p.take(n) == a);
    assert(p.skip(n + 1) == b);
    assert(is_digit(p[0]) || p[0] == '.');
    assert(unsigned_text(p) == p);
    lemma_number_without_exponent(p);
    assert(lowered(p)[0] == p[0]);
    assert forall|k: int| 0 <= k < a.len() implies a[k] != '.' by {
        assert(is_digit(a[k]));
    }
    lemma_no_char(a, '.');
    lemma_number_without_exponent(a);
    if a.len() > 0 {
        assert(is_digit(a[0]));
        assert(unsigned_text(a) == a);
        assert(lowered(a)[0] == a[0]);
    } else {
        assert(unsigned_text(a) == a);
        assert(lowered(a).len() == 0);
    }
}

/// An exponent behind a number makes it another number: a letter `e`, an optional sign and
/// at least one digit.
pub proof fn law_exponents_read(m: Seq<char>, exp: Seq<char>)
    requires
        all_digits(m),
        m.len() > 0,
        all_digits(exp),
    ensures
        is_float_text(m + seq!['e'] + exp) <==> exp.len() > 0,
        is_float_text(m + seq!['e', '-'] + exp) <==> exp.len() > 0,
        is_float_text(m + seq!['E'] + exp) <==> exp.len() > 0,
{
    let n = m.len() as int;
    let s = m + seq!['e'] + exp;
    let t = m + seq!['e', '-'] + exp;
    let u = m + seq!['E'] + exp;
    assert(is_digit(m[0]));
    assert forall|k: int| 0 <= k < n implies lowered(s)[k] != 'e' && lowered(t)[k] != 'e'
        && lowered(u)[k] != 'e' && m[k] != '.' by {
        assert(is_digit(m[k]));
    }
    assert(lower('E') == 'e' && lower('e') == 'e');
    lemma_first_char(lowered(s), 'e', n);
    lemma_first_char(lowered(t), 'e', n);
    lemma_first_char(lowered(u), 'e', n);
    assert(s.take(n) == m && t.take(n) == m && u.take(n) == m);
    assert(s.skip(n + 1) == exp && u.skip(n + 1) == exp);
    assert(t.skip(n + 1) == seq!['-'] + exp);
    assert((seq!['-'] + exp).drop_first() == exp);
    lemma_no_char(m, '.');
    if exp.len() > 0 {
        assert(is_digit(exp[0]));
    }
    assert(unsigned_text(exp) == exp);
    assert(unsigned_text(s) == s && unsigned_text(t) == t && unsigned_text(u) == u);
    assert(lowered(s)[0] == s[0] && lowered(t)[0] == t[0] && lowered(u)[0] == u[0]);
    assert(s[0] == m[0] && t[0] == m[0] && u[0] == m[0]);
}

/// A text that reads as a number begins, behind its sign, with a digit, a point, or the
/// first letter of infinity or of no number; an empty text does not read.
pub proof fn law_numbers_begin(s: Seq<char>)
    requires
        is_float_text(s),
    ensures
        unsigned_text(s).len() > 0,
        ({
            let c = lower(unsigned_text(s)[0]);
            is_digit(c) || c == '.' || c == 'i' || c == 'n'
        }),
{
    let t = unsigned_text(s);
    let l = lowered(t);
    if is_number(t) {
        law_first(l, seq!['e']);
        let m = match first(l, seq!['e']) {
            Some(i) => t.take(i),
            None => t,
        };
        law_first(m, seq!['.']);
        match first(m, seq!['.']) {
            Some(i) => {
                assert(m.subrange(i, i + 1)[0] == m[i]);
                if i > 0 {
                    assert(is_digit(m.take(i)[0]));
                }
            },
            None => {
                assert(is_digit(m[0]));
            },
        }
        assert(m[0] == t[0]);
    } else {
        assert(l[0] == lower(t[0]));
    }
}

/// A mark that stands behind a head, and nowhere before, is found there.
pub proof fn lemma_first_mark<T>(head: Seq<T>, mark: Seq<T>, tail: Seq<T>)
    requires
        forall|j: int|
            0 <= j < head.len() ==> !#[trigger] occurs_at(head + mark + tail, mark, j),
    ensures
        first(head + mark + tail, mark) == Some(head.len() as int),
        (head + mark + tail).take(head.len() as int) == head,
{
    let hay = head + mark + tail;
    let n = head.len() as int;
    assert(hay.subrange(n, n + mark.len()) == mark);
    assert(occurs_at(hay, mark, n));
    lemma_first_from(hay, mark, 0);
    assert(hay.take(n) == head);
}

} // verus!
