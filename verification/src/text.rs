//! Text in and out: lines, trimming, unsigned decimal numbers.
//!
//! Contracts speak of a text as its sequence of characters.

use vstd::prelude::*;

verus! {

/// `String::push` appends one character and changes nothing else.
pub assume_specification[ String::push ](s: &mut String, ch: char)
    ensures
        final(s)@ == old(s)@.push(ch),
;

/// The characters with the Unicode property White_Space.
pub open spec fn is_white_space(c: char) -> bool {
    let n = c as int;
    ||| 0x09 <= n <= 0x0d
    ||| n == 0x20
    ||| n == 0x85
    ||| n == 0xa0
    ||| n == 0x1680
    ||| 0x2000 <= n <= 0x200a
    ||| n == 0x2028
    ||| n == 0x2029
    ||| n == 0x202f
    ||| n == 0x205f
    ||| n == 0x3000
}

/// Whether a character counts as white space.
pub fn white_space(c: char) -> (r: bool)
    ensures
        r == is_white_space(c),
{
    let n: u32 = c as u32;
    (0x09 <= n && n <= 0x0d) || n == 0x20 || n == 0x85 || n == 0xa0 || n == 0x1680 || (0x2000 <= n
        && n <= 0x200a) || n == 0x2028 || n == 0x2029 || n == 0x202f || n == 0x205f || n == 0x3000
}

/// The characters of a text.
pub fn to_chars(s: &str) -> (r: Vec<char>)
    ensures
        r@ == s@,
{
    let mut r: Vec<char> = Vec::new();
    for c in it: s.chars()
        invariant
            it.seq() == s@,
            r@ == s@.take(it.index() as int),
    {
        r.push(c);
    }
    assert(s@.take(s@.len() as int) =~= s@);
    r
}

/// The text made of the given characters.
pub fn from_chars(chars: &Vec<char>) -> (r: String)
    ensures
        r@ == chars@,
{
    let mut r = String::new();
    let mut i: usize = 0;
    while i < chars.len()
        invariant
            i <= chars.len(),
            r@ == chars@.take(i as int),
        decreases chars.len() - i,
    {
        r.push(chars[i]);
        assert(chars@.take(i + 1) =~= chars@.take(i as int).push(chars@[i as int]));
        i += 1;
    }
    assert(chars@.take(chars.len() as int) =~= chars@);
    r
}

/// A copy of part of a character list.
pub fn slice_chars(chars: &Vec<char>, from: usize, to: usize) -> (r: Vec<char>)
    requires
        from <= to <= chars.len(),
    ensures
        r@ == chars@.subrange(from as int, to as int),
{
    let mut r: Vec<char> = Vec::new();
    let mut i: usize = from;
    while i < to
        invariant
            from <= i <= to <= chars.len(),
            r@ == chars@.subrange(from as int, i as int),
        decreases to - i,
    {
        r.push(chars[i]);
        assert(chars@.subrange(from as int, i + 1) =~= chars@.subrange(from as int, i as int).push(
            chars@[i as int],
        ));
        i += 1;
    }
    r
}

/// The position of the first `c` in `s`, or the length of `s` if there is none.
pub open spec fn index_of(s: Seq<char>, c: char) -> nat
    decreases s.len(),
{
    if s.len() == 0 || s[0] == c {
        0
    } else {
        1 + index_of(s.drop_first(), c)
    }
}

/// `index_of` is the one position up to which `c` does not occur and at which it does, or the end.
pub proof fn lemma_index_of(s: Seq<char>, c: char, i: int)
    requires
        0 <= i <= s.len(),
        forall|j: int| 0 <= j < i ==> s[j] != c,
        i < s.len() ==> s[i] == c,
    ensures
        index_of(s, c) == i,
    decreases s.len(),
{
    if s.len() > 0 && s[0] != c {
        assert(i > 0);
        assert(forall|j: int| 0 <= j < i - 1 ==> s.drop_first()[j] == s[j + 1]);
        lemma_index_of(s.drop_first(), c, i - 1);
    }
}

/// Where the first `c` at or after `from` stands, or the end of the list.
pub fn find_char(chars: &Vec<char>, from: usize, c: char) -> (r: usize)
    requires
        from <= chars.len(),
    ensures
        from <= r <= chars.len(),
        r == from + index_of(chars@.skip(from as int), c),
        forall|j: int| from <= j < r ==> chars@[j] != c,
        r < chars.len() ==> chars@[r as int] == c,
{
    let mut i: usize = from;
    while i < chars.len() && chars[i] != c
        invariant
            from <= i <= chars.len(),
            forall|j: int| from <= j < i ==> chars@[j] != c,
        decreases chars.len() - i,
    {
        i += 1;
    }
    proof {
        let rest = chars@.skip(from as int);
        assert(forall|j: int| 0 <= j < i - from ==> rest[j] == chars@[from + j]);
        lemma_index_of(rest, c, i - from);
    }
    i
}

/// A text without the white space at its start.
pub open spec fn trim_start(s: Seq<char>) -> Seq<char>
    decreases s.len(),
{
    if s.len() > 0 && is_white_space(s[0]) {
        trim_start(s.drop_first())
    } else {
        s
    }
}

/// A text without the white space at its end.
pub open spec fn trim_end(s: Seq<char>) -> Seq<char>
    decreases s.len(),
{
    if s.len() > 0 && is_white_space(s.last()) {
        trim_end(s.drop_last())
    } else {
        s
    }
}

/// A text without the white space around it.
pub open spec fn trimmed(s: Seq<char>) -> Seq<char> {
    trim_end(trim_start(s))
}

/// Cuts the white space off both ends.
pub fn trim_chars(chars: &Vec<char>) -> (r: Vec<char>)
    ensures
        r@ == trimmed(chars@),
{
    let mut from: usize = 0;
    assert(chars@.skip(0) =~= chars@);
    while from < chars.len() && white_space(chars[from])
        invariant
            from <= chars.len(),
            trim_start(chars@) == trim_start(chars@.skip(from as int)),
        decreases chars.len() - from,
    {
        assert(chars@.skip(from as int).drop_first() =~= chars@.skip(from + 1));
        from += 1;
    }
    let mut to: usize = chars.len();
    assert(chars@.subrange(from as int, to as int) =~= chars@.skip(from as int));
    while to > from && white_space(chars[to - 1])
        invariant
            from <= to <= chars.len(),
            trimmed(chars@) == trim_end(chars@.subrange(from as int, to as int)),
        decreases to,
    {
        assert(chars@.subrange(from as int, to as int).drop_last() =~= chars@.subrange(
            from as int,
            to - 1,
        ));
        to -= 1;
    }
    slice_chars(chars, from, to)
}

/// A line's text, without the carriage return of a CRLF line ending.
pub open spec fn without_cr(s: Seq<char>) -> Seq<char> {
    if s.len() > 0 && s.last() == '\r' {
        s.drop_last()
    } else {
        s
    }
}

/// The lines of a text: what stands before each line feed (without the carriage return of a CRLF
/// ending), and what stands behind the last one, unless that is empty.
pub open spec fn lines_of(s: Seq<char>) -> Seq<Seq<char>>
    decreases s.len(),
{
    let i = index_of(s, '\n') as int;
    if s.len() == 0 {
        Seq::empty()
    } else if i >= s.len() {
        seq![s]
    } else {
        seq![without_cr(s.take(i))] + lines_of(s.skip(i + 1))
    }
}

/// The views of a list of character lists.
pub open spec fn views(v: Seq<Vec<char>>) -> Seq<Seq<char>> {
    v.map_values(|c: Vec<char>| c@)
}

/// Splits a text into its lines.
pub fn split_lines(chars: &Vec<char>) -> (r: Vec<Vec<char>>)
    ensures
        views(r@) == lines_of(chars@),
{
    let mut r: Vec<Vec<char>> = Vec::new();
    let mut from: usize = 0;
    assert(chars@.skip(0) =~= chars@);
    assert(views(r@) + lines_of(chars@) =~= lines_of(chars@));
    while from < chars.len()
        invariant
            from <= chars.len(),
            views(r@) + lines_of(chars@.skip(from as int)) == lines_of(chars@),
        decreases chars.len() - from,
    {
        let ghost rest = chars@.skip(from as int);
        let ghost before = views(r@);
        let end: usize = find_char(chars, from, '\n');
        if end == chars.len() {
            let line = slice_chars(chars, from, end);
            assert(line@ =~= rest);
            r.push(line);
            assert(views(r@) =~= before.push(rest));
            assert(lines_of(rest) == seq![rest]);
            assert(before + seq![rest] =~= views(r@) + lines_of(chars@.skip(end as int)));
            from = end;
        } else {
            let mut to: usize = end;
            assert(rest.take(end - from) =~= chars@.subrange(from as int, end as int));
            if to > from && chars[to - 1] == '\r' {
                to -= 1;
            }
            let line = slice_chars(chars, from, to);
            assert(line@ =~= without_cr(rest.take(end - from)));
            r.push(line);
            assert(views(r@) =~= before.push(line@));
            assert(rest.skip(end - from + 1) =~= chars@.skip(end + 1));
            assert(before + (seq![line@] + lines_of(chars@.skip(end + 1))) =~= views(r@)
                + lines_of(chars@.skip(end + 1)));
            from = end + 1;
        }
    }
    assert(chars@.skip(chars.len() as int) =~= Seq::<char>::empty());
    assert(views(r@) + Seq::<Seq<char>>::empty() =~= views(r@));
    r
}

/// Whether `s` ends in `suffix`.
pub open spec fn has_suffix(s: Seq<char>, suffix: Seq<char>) -> bool {
    suffix.len() <= s.len() && s.skip(s.len() - suffix.len()) == suffix
}

/// A text without the copies of `suffix` at its end, however many follow each other there.
pub open spec fn without_suffixes(s: Seq<char>, suffix: Seq<char>) -> Seq<char>
    decreases s.len(),
{
    if suffix.len() > 0 && has_suffix(s, suffix) {
        without_suffixes(s.take(s.len() - suffix.len()), suffix)
    } else {
        s
    }
}

/// Whether the list, cut off at `end`, ends in `suffix`.
fn ends_with(chars: &Vec<char>, end: usize, suffix: &Vec<char>) -> (r: bool)
    requires
        end <= chars.len(),
    ensures
        r == has_suffix(chars@.take(end as int), suffix@),
{
    if suffix.len() > end {
        return false;
    }
    let start: usize = end - suffix.len();
    let ghost tail = chars@.take(end as int).skip(start as int);
    let mut i: usize = 0;
    while i < suffix.len()
        invariant
            i <= suffix.len(),
            start + suffix.len() == end <= chars.len(),
            tail == chars@.take(end as int).skip(start as int),
            forall|j: int| 0 <= j < i ==> tail[j] == suffix@[j],
        decreases suffix.len() - i,
    {
        if chars[start + i] != suffix[i] {
            assert(tail[i as int] != suffix@[i as int]);
            return false;
        }
        i += 1;
    }
    assert(tail =~= suffix@);
    true
}

/// Cuts every copy of `suffix` off the end.
pub fn trim_suffixes(chars: &Vec<char>, suffix: &Vec<char>) -> (r: Vec<char>)
    ensures
        r@ == without_suffixes(chars@, suffix@),
{
    let mut end: usize = chars.len();
    assert(chars@.take(end as int) =~= chars@);
    if suffix.len() > 0 {
        while ends_with(chars, end, suffix)
            invariant
                end <= chars.len(),
                suffix.len() > 0,
                without_suffixes(chars@, suffix@) == without_suffixes(
                    chars@.take(end as int),
                    suffix@,
                ),
            decreases end,
        {
            assert(chars@.take(end as int).take(end - suffix.len()) =~= chars@.take(
                end - suffix.len(),
            ));
            end -= suffix.len();
        }
    }
    assert(chars@.subrange(0, end as int) =~= chars@.take(end as int));
    slice_chars(chars, 0, end)
}

/// Why a text is no number.
#[derive(Clone, Copy, Debug, PartialEq, Eq, Structural)]
pub enum NumberError {
    Empty,
    InvalidDigit,
    TooLarge,
}

impl NumberError {
    /// What the error reads as.
    pub open spec fn text(self) -> Seq<char> {
        match self {
            NumberError::Empty => "cannot parse integer from empty string"@,
            NumberError::InvalidDigit => "invalid digit found in string"@,
            NumberError::TooLarge => "number too large to fit in target type"@,
        }
    }

    /// The error in words.
    pub fn message(self) -> (r: String)
        ensures
            r@ == self.text(),
    {
        match self {
            NumberError::Empty => "cannot parse integer from empty string".to_owned(),
            NumberError::InvalidDigit => "invalid digit found in string".to_owned(),
            NumberError::TooLarge => "number too large to fit in target type".to_owned(),
        }
    }
}

/// The decimal digits 0 to 9.
pub open spec fn is_digit(c: char) -> bool {
    '0' <= c <= '9'
}

/// The value of a decimal digit.
pub open spec fn digit_value(c: char) -> nat {
    (c as int - '0' as int) as nat
}

/// Reads decimal digits from the left on top of the value `acc`. It stops at the first character
/// that is no digit or with which the value exceeds `max`.
pub open spec fn parsed_digits(s: Seq<char>, acc: nat, max: u64) -> Result<u64, NumberError>
    decreases s.len(),
{
    if s.len() == 0 {
        Ok(acc as u64)
    } else if !is_digit(s[0]) {
        Err(NumberError::InvalidDigit)
    } else if acc * 10 + digit_value(s[0]) > max {
        Err(NumberError::TooLarge)
    } else {
        parsed_digits(s.drop_first(), acc * 10 + digit_value(s[0]), max)
    }
}

/// The number from 0 to `max` that a text stands for: decimal digits, one or more, behind an
/// optional plus sign.
pub open spec fn parsed_number(s: Seq<char>, max: u64) -> Result<u64, NumberError> {
    if s.len() == 0 {
        Err(NumberError::Empty)
    } else if s[0] == '+' && s.len() > 1 {
        parsed_digits(s.drop_first(), 0, max)
    } else {
        parsed_digits(s, 0, max)
    }
}

/// Reads an unsigned decimal number.
pub fn parse_number(chars: &Vec<char>, max: u64) -> (r: Result<u64, NumberError>)
    ensures
        r == parsed_number(chars@, max),
{
    if chars.len() == 0 {
        return Err(NumberError::Empty);
    }
    let mut i: usize = 0;
    assert(chars@.skip(0) =~= chars@);
    if chars[0] == '+' && chars.len() > 1 {
        i = 1;
        assert(chars@.skip(1) =~= chars@.drop_first());
    }
    let mut acc: u64 = 0;
    while i < chars.len()
        invariant
            i <= chars.len(),
            acc <= max,
            parsed_number(chars@, max) == parsed_digits(chars@.skip(i as int), acc as nat, max),
        decreases chars.len() - i,
    {
        let c: char = chars[i];
        assert(chars@.skip(i as int)[0] == c);
        assert(chars@.skip(i as int).drop_first() =~= chars@.skip(i + 1));
        if !('0' <= c && c <= '9') {
            return Err(NumberError::InvalidDigit);
        }
        let d: u64 = (c as u32 - 48) as u64;
        if acc > max / 10 || d > max - acc * 10 {
            return Err(NumberError::TooLarge);
        }
        acc = acc * 10 + d;
        i += 1;
    }
    Ok(acc)
}

proof fn lemma_parsed_digits_in_range(s: Seq<char>, acc: nat, max: u64)
    requires
        acc <= max,
    ensures
        parsed_digits(s, acc, max) matches Ok(n) ==> n <= max,
    decreases s.len(),
{
    if s.len() > 0 && is_digit(s[0]) && acc * 10 + digit_value(s[0]) <= max {
        lemma_parsed_digits_in_range(s.drop_first(), acc * 10 + digit_value(s[0]), max);
    }
}

/// A number that was read does not exceed the limit.
pub proof fn parsed_number_in_range(s: Seq<char>, max: u64)
    ensures
        parsed_number(s, max) matches Ok(n) ==> n <= max,
{
    lemma_parsed_digits_in_range(s, 0, max);
    if s.len() > 0 {
        lemma_parsed_digits_in_range(s.drop_first(), 0, max);
    }
}

/// Reads an unsigned decimal number that fits a `usize`.
pub fn parse_usize(chars: &Vec<char>) -> (r: Result<usize, NumberError>)
    ensures
        match r {
            Ok(n) => parsed_number(chars@, usize::MAX as u64) == Ok::<u64, NumberError>(n as u64),
            Err(e) => parsed_number(chars@, usize::MAX as u64) == Err::<u64, NumberError>(e),
        },
{
    proof {
        parsed_number_in_range(chars@, usize::MAX as u64);
    }
    match parse_number(chars, usize::MAX as u64) {
        Ok(n) => Ok(n as usize),
        Err(e) => Err(e),
    }
}

/// The digit for a value below ten.
pub open spec fn digit_char(d: nat) -> char {
    (d + '0' as nat) as char
}

/// A number in decimal, without leading zeros.
pub open spec fn decimal(n: nat) -> Seq<char>
    decreases n,
{
    if n < 10 {
        seq![digit_char(n)]
    } else {
        decimal(n / 10).push(digit_char(n % 10))
    }
}

/// Writes a number in decimal.
pub fn decimal_chars(n: u64) -> (r: Vec<char>)
    ensures
        r@ == decimal(n as nat),
    decreases n,
{
    let d: char = ((n % 10) as u8 + 48) as char;
    if n < 10 {
        let mut r: Vec<char> = Vec::new();
        r.push(d);
        assert(r@ =~= decimal(n as nat));
        r
    } else {
        let mut r: Vec<char> = decimal_chars(n / 10);
        r.push(d);
        r
    }
}

/// A text with spaces in front, so that it is at least `width` characters long.
pub open spec fn right_aligned(s: Seq<char>, width: nat) -> Seq<char> {
    if s.len() >= width {
        s
    } else {
        Seq::new((width - s.len()) as nat, |i: int| ' ') + s
    }
}

/// Fills up with spaces in front.
pub fn align_right(chars: &Vec<char>, width: usize) -> (r: Vec<char>)
    ensures
        r@ == right_aligned(chars@, width as nat),
{
    let mut r: Vec<char> = Vec::new();
    if chars.len() < width {
        let fill: usize = width - chars.len();
        while r.len() < fill
            invariant
                r@ == Seq::new(r.len() as nat, |i: int| ' '),
                r.len() <= fill,
            decreases fill - r.len(),
        {
            r.push(' ');
            assert(r@ =~= Seq::new(r.len() as nat, |i: int| ' '));
        }
    }
    append_chars(&mut r, chars);
    assert(chars.len() >= width ==> r@ =~= chars@);
    r
}

/// Appends the characters of one list to another.
pub fn append_chars(to: &mut Vec<char>, chars: &Vec<char>)
    ensures
        final(to)@ == old(to)@ + chars@,
{
    let mut i: usize = 0;
    assert(to@ + chars@.take(0) =~= to@);
    while i < chars.len()
        invariant
            i <= chars.len(),
            to@ == old(to)@ + chars@.take(i as int),
        decreases chars.len() - i,
    {
        to.push(chars[i]);
        assert(to@ =~= old(to)@ + chars@.take(i + 1));
        i += 1;
    }
    assert(chars@.take(chars.len() as int) =~= chars@);
}

/// One more digit at the end of a text that reads as a number.
proof fn lemma_parsed_digits_push(s: Seq<char>, c: char, acc: nat, max: u64)
    requires
        parsed_digits(s, acc, max) is Ok,
        is_digit(c),
        acc <= max,
        parsed_digits(s, acc, max)->Ok_0 * 10 + digit_value(c) <= max,
    ensures
        parsed_digits(s.push(c), acc, max) == Ok::<u64, NumberError>(
            (parsed_digits(s, acc, max)->Ok_0 * 10 + digit_value(c)) as u64,
        ),
    decreases s.len(),
{
    let t = s.push(c);
    if s.len() == 0 {
        assert(t.drop_first() =~= Seq::<char>::empty());
        assert(parsed_digits(t.drop_first(), acc * 10 + digit_value(c), max) == Ok::<
            u64,
            NumberError,
        >((acc * 10 + digit_value(c)) as u64));
    } else {
        assert(t.drop_first() =~= s.drop_first().push(c));
        lemma_parsed_digits_push(s.drop_first(), c, acc * 10 + digit_value(s[0]), max);
    }
}

/// A number written in decimal starts with a digit.
proof fn lemma_decimal_starts_with_digit(n: nat)
    ensures
        decimal(n).len() > 0,
        is_digit(decimal(n)[0]),
    decreases n,
{
    if n >= 10 {
        lemma_decimal_starts_with_digit(n / 10);
    }
}

proof fn lemma_decimal_parses(n: nat, max: u64)
    requires
        n <= max,
    ensures
        parsed_digits(decimal(n), 0, max) == Ok::<u64, NumberError>(n as u64),
    decreases n,
{
    if n < 10 {
        let s = decimal(n);
        assert(s.drop_first() =~= Seq::<char>::empty());
        assert(parsed_digits(s.drop_first(), n, max) == Ok::<u64, NumberError>(n as u64));
    } else {
        lemma_decimal_parses(n / 10, max);
        lemma_parsed_digits_push(decimal(n / 10), digit_char(n % 10), 0, max);
    }
}

/// Reading gives back what was written: a number in decimal reads as itself, as long as it is in
/// range.
pub proof fn number_round_trip(n: u64, max: u64)
    requires
        n <= max,
    ensures
        parsed_number(decimal(n as nat), max) == Ok::<u64, NumberError>(n),
{
    lemma_decimal_starts_with_digit(n as nat);
    lemma_decimal_parses(n as nat, max);
}

/// Cutting white space off the ends leaves the middle as it is: what is left is one piece of the
/// text, what is gone on either side is white space, and the piece neither starts nor ends with
/// any.
pub proof fn trimming_leaves_the_middle(s: Seq<char>) -> (bounds: (int, int))
    ensures
        0 <= bounds.0 <= bounds.1 <= s.len(),
        trimmed(s) == s.subrange(bounds.0, bounds.1),
        forall|i: int| 0 <= i < bounds.0 ==> is_white_space(#[trigger] s[i]),
        forall|i: int| bounds.1 <= i < s.len() ==> is_white_space(#[trigger] s[i]),
        bounds.0 < bounds.1 ==> !is_white_space(s[bounds.0]) && !is_white_space(s[bounds.1 - 1]),
    decreases s.len(),
{
    if s.len() > 0 && is_white_space(s[0]) {
        let rest = s.drop_first();
        let (a, b) = trimming_leaves_the_middle(rest);
        assert(s.subrange(a + 1, b + 1) =~= rest.subrange(a, b));
        assert forall|i: int| 0 <= i < a + 1 implies is_white_space(#[trigger] s[i]) by {
            if i > 0 {
                assert(s[i] == rest[i - 1]);
            }
        }
        assert forall|i: int| b + 1 <= i < s.len() implies is_white_space(#[trigger] s[i]) by {
            assert(s[i] == rest[i - 1]);
        }
        (a + 1, b + 1)
    } else if s.len() > 0 && is_white_space(s.last()) {
        let rest = s.drop_last();
        let (a, b) = trimming_leaves_the_middle(rest);
        assert(s.subrange(a, b) =~= rest.subrange(a, b));
        assert(trim_start(s) == s);
        assert(rest.len() > 0 ==> trim_start(rest) == rest);
        assert forall|i: int| 0 <= i < a implies is_white_space(#[trigger] s[i]) by {
            assert(s[i] == rest[i]);
        }
        assert forall|i: int| b <= i < s.len() implies is_white_space(#[trigger] s[i]) by {
            if i < rest.len() {
                assert(s[i] == rest[i]);
            }
        }
        (a, b)
    } else {
        assert(s.subrange(0, s.len() as int) =~= s);
        (0, s.len() as int)
    }
}

/// A line feed ends a line: what stands before the first one is the first line, but for one
/// carriage return at its end, and what follows has the lines that it has by itself.
pub proof fn line_feeds_part_lines(line: Seq<char>, rest: Seq<char>)
    requires
        !line.contains('\n'),
    ensures
        lines_of(line + seq!['\n'] + rest) == seq![
            if line.len() > 0 && line.last() == '\r' {
                line.drop_last()
            } else {
                line
            },
        ] + lines_of(rest),
        lines_of(line) == if line.len() == 0 {
            Seq::empty()
        } else {
            seq![line]
        },
{
    let text = line + seq!['\n'] + rest;
    let n = line.len() as int;
    assert forall|i: int| 0 <= i < n implies line[i] != '\n' && text[i] != '\n' by {
        assert(line.contains(line[i]));
        assert(text[i] == line[i]);
    }
    assert(text[n] == '\n');
    lemma_index_of(text, '\n', n);
    lemma_index_of(line, '\n', n);
    assert(text.take(n) =~= line);
    assert(text.skip(n + 1) =~= rest);
}

/// A suffix is cut off as often as it stands at the end: one more of it makes no difference, and a
/// text that does not end in it stays as it is.
pub proof fn suffixes_make_no_difference(s: Seq<char>, suffix: Seq<char>)
    requires
        suffix.len() > 0,
    ensures
        without_suffixes(s + suffix, suffix) == without_suffixes(s, suffix),
        (suffix.len() > s.len() || s.subrange(s.len() - suffix.len(), s.len() as int) != suffix)
            ==> without_suffixes(s, suffix) == s,
{
    let t = s + suffix;
    assert(t.skip(t.len() - suffix.len()) =~= suffix);
    assert(t.take(t.len() - suffix.len()) =~= s);
    if suffix.len() <= s.len() {
        assert(s.subrange(s.len() - suffix.len(), s.len() as int) =~= s.skip(
            s.len() - suffix.len(),
        ));
    }
}

/// As many zeros as wanted.
pub open spec fn zeros(n: nat) -> Seq<char> {
    Seq::new(n, |i: int| '0')
}

proof fn lemma_zeros_in_front(n: nat, rest: Seq<char>, max: u64)
    ensures
        parsed_digits(zeros(n) + rest, 0, max) == parsed_digits(rest, 0, max),
    decreases n,
{
    if n == 0 {
        assert(zeros(n) + rest =~= rest);
    } else {
        let less = (n - 1) as nat;
        lemma_zeros_in_front(less, rest, max);
        assert((zeros(n) + rest).drop_first() =~= zeros(less) + rest);
        assert((zeros(n) + rest)[0] == '0');
    }
}

proof fn lemma_decimal_in_front(n: nat, rest: Seq<char>, max: u64)
    ensures
        n <= max ==> parsed_digits(decimal(n) + rest, 0, max) == parsed_digits(rest, n, max),
        n > max ==> parsed_digits(decimal(n) + rest, 0, max) == Err::<u64, NumberError>(
            NumberError::TooLarge,
        ),
    decreases n,
{
    let d = digit_char(n % 10);
    let more = seq![d] + rest;
    assert(more[0] == d && is_digit(d) && digit_value(d) == n % 10);
    assert(more.drop_first() =~= rest);
    if n < 10 {
        assert(decimal(n) + rest =~= more);
    } else {
        lemma_decimal_in_front(n / 10, more, max);
        assert(decimal(n) + rest =~= decimal(n / 10) + more);
    }
}

/// A plus sign in front of a number does not matter, as long as something follows it. With a second
/// one the text is no number.
pub proof fn plus_signs_do_not_matter(s: Seq<char>, max: u64)
    requires
        s.len() > 0,
    ensures
        s[0] != '+' ==> parsed_number(seq!['+'] + s, max) == parsed_number(s, max),
        s[0] == '+' ==> parsed_number(seq!['+'] + s, max) == Err::<u64, NumberError>(
            NumberError::InvalidDigit,
        ),
{
    assert((seq!['+'] + s).drop_first() =~= s);
}

/// A number in decimal reads as itself up to the limit, with zeros in front and without; above the
/// limit it is too large, whatever follows.
pub proof fn numbers_read_as_themselves(leading: nat, n: nat, max: u64, rest: Seq<char>)
    ensures
        n <= max ==> parsed_number(zeros(leading) + decimal(n), max) == Ok::<u64, NumberError>(
            n as u64,
        ),
        n > max ==> parsed_number(zeros(leading) + decimal(n) + rest, max) == Err::<
            u64,
            NumberError,
        >(NumberError::TooLarge),
{
    let number = decimal(n);
    lemma_decimal_starts_with_digit(n);
    lemma_zeros_in_front(leading, number, max);
    lemma_zeros_in_front(leading, number + rest, max);
    lemma_decimal_in_front(n, Seq::empty(), max);
    lemma_decimal_in_front(n, rest, max);
    assert(number + Seq::<char>::empty() =~= number);
    assert(zeros(leading) + number + rest =~= zeros(leading) + (number + rest));
    assert((zeros(leading) + number)[0] == if leading > 0 {
        '0'
    } else {
        number[0]
    });
    assert((zeros(leading) + number + rest)[0] == (zeros(leading) + number)[0]);
}

/// A text is no number if anything but a digit stands in it: behind digits that are in range, or at
/// its start, where a plus sign may stand only if something follows it. An empty text is none
/// either.
pub proof fn other_texts_are_no_numbers(leading: nat, n: nat, c: char, rest: Seq<char>, max: u64)
    requires
        n <= max,
        !('0' <= c <= '9'),
    ensures
        parsed_number(zeros(leading) + decimal(n) + seq![c] + rest, max) == Err::<u64, NumberError>(
            NumberError::InvalidDigit,
        ),
        c != '+' || rest.len() == 0 ==> parsed_number(seq![c] + rest, max) == Err::<
            u64,
            NumberError,
        >(NumberError::InvalidDigit),
        parsed_number(Seq::empty(), max) == Err::<u64, NumberError>(NumberError::Empty),
{
    let bad = seq![c] + rest;
    let number = decimal(n);
    assert(bad[0] == c);
    lemma_decimal_starts_with_digit(n);
    lemma_zeros_in_front(leading, number + bad, max);
    lemma_decimal_in_front(n, bad, max);
    let text = zeros(leading) + number + seq![c] + rest;
    assert(text =~= zeros(leading) + (number + bad));
    assert(text[0] == if leading > 0 {
        '0'
    } else {
        number[0]
    });
}

/// Decimal numbers are written with the ten digits, the last one first: a number below ten is its
/// digit, and ten times a number and a digit is the number with the digit behind it.
pub proof fn decimals_end_in_their_last_digit(n: nat, d: nat)
    requires
        d < 10,
    ensures
        decimal(d) == seq!["0123456789"@[d as int]],
        n > 0 ==> decimal(10 * n + d) == decimal(n).push("0123456789"@[d as int]),
{
    reveal_strlit("0123456789");
    assert((10 * n + d) / 10 == n);
    assert((10 * n + d) % 10 == d);
    assert("0123456789"@[d as int] == digit_char(d));
}

/// A text that is aligned to the right stands at the end, behind spaces, and takes up as much room
/// as is asked for, or as much as it needs if that is more.
pub proof fn aligned_texts_stand_at_the_end(s: Seq<char>, width: nat)
    ensures
        ({
            let r = right_aligned(s, width);
            let n = r.len() - s.len();
            &&& n >= 0
            &&& r.len() == if s.len() > width {
                s.len()
            } else {
                width
            }
            &&& r.skip(n) == s
            &&& forall|i: int| 0 <= i < n ==> #[trigger] r[i] == ' '
        }),
{
    let r = right_aligned(s, width);
    assert(r.skip(r.len() - s.len()) =~= s);
}

} // verus!
