//! The textual form of a parameter change: a line of UTF-8 text that holds
//! the number of a parameter, a colon and a value, both in decimal digits.
//! What the value means for the parameter is for the reader of the command to
//! say.
use vstd::prelude::*;

verus! {

/// A white space character of one byte: the blank and the control characters
/// from the tabulator to the carriage return.
pub open spec fn is_space(byte: u8) -> bool {
    byte == 0x20 || (0x09 <= byte && byte <= 0x0d)
}

/// A white space character of two bytes in UTF-8: the next line control and
/// the no-break space.
pub open spec fn is_space_of_two(a: u8, b: u8) -> bool {
    a == 0xC2 && (b == 0x85 || b == 0xA0)
}

/// A white space character of three bytes in UTF-8: the Ogham space mark,
/// the spaces from the en quad to the hair space, the line and the paragraph
/// separator, the narrow no-break space, the medium mathematical space and
/// the ideographic space.
pub open spec fn is_space_of_three(a: u8, b: u8, c: u8) -> bool {
    ||| a == 0xE1 && b == 0x9A && c == 0x80
    ||| a == 0xE2 && b == 0x80 && ((0x80 <= c && c <= 0x8A) || c == 0xA8 || c == 0xA9 || c == 0xAF)
    ||| a == 0xE2 && b == 0x81 && c == 0x9F
    ||| a == 0xE3 && b == 0x80 && c == 0x80
}

/// A decimal digit.
pub open spec fn is_digit(byte: u8) -> bool {
    0x30 <= byte && byte <= 0x39
}

/// The number of bytes of the white space character that `s` begins with;
/// zero if it begins with none.
pub open spec fn space_at_front(s: Seq<u8>) -> nat {
    if s.len() >= 1 && is_space(s[0]) {
        1
    } else if s.len() >= 2 && is_space_of_two(s[0], s[1]) {
        2
    } else if s.len() >= 3 && is_space_of_three(s[0], s[1], s[2]) {
        3
    } else {
        0
    }
}

/// The number of bytes of the white space character that `s` ends with; zero
/// if it ends with none.
pub open spec fn space_at_back(s: Seq<u8>) -> nat {
    if s.len() >= 1 && is_space(s[s.len() - 1]) {
        1
    } else if s.len() >= 2 && is_space_of_two(s[s.len() - 2], s[s.len() - 1]) {
        2
    } else if s.len() >= 3 && is_space_of_three(s[s.len() - 3], s[s.len() - 2], s[s.len() - 1]) {
        3
    } else {
        0
    }
}

/// The number of bytes of white space at the front of `s`.
pub open spec fn leading_spaces(s: Seq<u8>) -> nat
    decreases s.len(),
{
    let k = space_at_front(s);
    if k > 0 {
        k + leading_spaces(s.skip(k as int))
    } else {
        0
    }
}

/// The number of bytes of white space at the back of `s`.
pub open spec fn trailing_spaces(s: Seq<u8>) -> nat
    decreases s.len(),
{
    let k = space_at_back(s);
    if k > 0 {
        k + trailing_spaces(s.take(s.len() - k))
    } else {
        0
    }
}

/// `s` without the white space at its front and at its back.
pub open spec fn trimmed(s: Seq<u8>) -> Seq<u8> {
    let front = s.skip(leading_spaces(s) as int);
    front.take(front.len() - trailing_spaces(front))
}

/// The place of the first colon of `s`, or the length of `s` if it has none.
pub open spec fn colon_at(s: Seq<u8>) -> nat
    decreases s.len(),
{
    if s.len() > 0 && s[0] != 0x3a {
        1 + colon_at(s.skip(1))
    } else {
        0
    }
}

/// The number that the decimal digits of `s` write.
pub open spec fn digits_value(s: Seq<u8>) -> nat
    decreases s.len(),
{
    if s.len() == 0 {
        0
    } else {
        digits_value(s.drop_last()) * 10 + (s.last() - 0x30) as nat
    }
}

/// Every byte of `s` is a decimal digit.
pub open spec fn all_digits(s: Seq<u8>) -> bool {
    forall|i: int| 0 <= i < s.len() ==> is_digit(#[trigger] s[i])
}

/// The number that `digits` writes: one decimal digit or more, whose value
/// fits 32 bits.
pub open spec fn unsigned_number(digits: Seq<u8>) -> Option<u32> {
    if digits.len() > 0 && all_digits(digits) && digits_value(digits) <= u32::MAX {
        Some(digits_value(digits) as u32)
    } else {
        None
    }
}

/// The number that `s` writes: an optional plus sign, then one decimal digit
/// or more, whose value fits 32 bits.
pub open spec fn number(s: Seq<u8>) -> Option<u32> {
    if s.len() > 0 && s[0] == 0x2b {
        unsigned_number(s.skip(1))
    } else {
        unsigned_number(s)
    }
}

/// The two numbers of the command that `line` holds. White space around the
/// command is passed over. The first number ends at the first colon, the
/// second at the second colon or at the end of the command; what follows a
/// second colon is passed over.
pub open spec fn command(line: Seq<u8>) -> Option<(u32, u32)> {
    let text = trimmed(line);
    let colon = colon_at(text);
    if colon >= text.len() {
        None
    } else {
        let rest = text.skip((colon + 1) as int);
        let index = number(text.take(colon as int));
        let value = number(rest.take(colon_at(rest) as int));
        if index is Some && value is Some {
            Some((index.unwrap(), value.unwrap()))
        } else {
            None
        }
    }
}

/// Where the first `n` bytes are no colon and the next one is, `n` is the
/// place of the first colon.
proof fn lemma_colon_at(s: Seq<u8>, n: nat)
    requires
        n <= s.len(),
        forall|i: int| 0 <= i < n ==> #[trigger] s[i] != 0x3a,
        n == s.len() || s[n as int] == 0x3a,
    ensures
        colon_at(s) == n,
    decreases n,
{
    if n > 0 {
        let t = s.skip(1);
        assert forall|i: int| 0 <= i < n - 1 implies #[trigger] t[i] != 0x3a by {
            assert(t[i] == s[i + 1]);
        }
        lemma_colon_at(t, (n - 1) as nat);
    }
}

/// More digits do not write a smaller number.
proof fn lemma_digits_value_grows(s: Seq<u8>, k: int)
    requires
        0 <= k <= s.len(),
        all_digits(s),
    ensures
        digits_value(s.take(k)) <= digits_value(s),
    decreases s.len() - k,
{
    if k < s.len() {
        let t = s.drop_last();
        assert(is_digit(s[s.len() - 1]));
        assert forall|i: int| 0 <= i < t.len() implies is_digit(#[trigger] t[i]) by {
            assert(t[i] == s[i]);
        }
        lemma_digits_value_grows(t, k);
        assert(t.take(k) == s.take(k));
    } else {
        assert(s.take(k) == s);
    }
}

/// Whether `byte` is a white space character of one byte.
fn space(byte: u8) -> (r: bool)
    ensures
        r == is_space(byte),
{
    byte == 0x20 || (0x09 <= byte && byte <= 0x0d)
}

/// Whether the two bytes are a white space character.
fn space_of_two(a: u8, b: u8) -> (r: bool)
    ensures
        r == is_space_of_two(a, b),
{
    a == 0xC2 && (b == 0x85 || b == 0xA0)
}

/// Whether the three bytes are a white space character.
fn space_of_three(a: u8, b: u8, c: u8) -> (r: bool)
    ensures
        r == is_space_of_three(a, b, c),
{
    (a == 0xE1 && b == 0x9A && c == 0x80) || (a == 0xE2 && b == 0x80 && ((0x80 <= c && c <= 0x8A)
        || c == 0xA8 || c == 0xA9 || c == 0xAF)) || (a == 0xE2 && b == 0x81 && c == 0x9F) || (a
        == 0xE3 && b == 0x80 && c == 0x80)
}

/// The number of bytes of the white space character that `line` holds at
/// `from`, before `to`; zero if it holds none there.
fn front_space(line: &[u8], from: usize, to: usize) -> (k: usize)
    requires
        from <= to <= line@.len(),
    ensures
        k == space_at_front(line@.subrange(from as int, to as int)),
        k <= to - from,
{
    let len: usize = to - from;
    if len >= 1 && space(line[from]) {
        1
    } else if len >= 2 && space_of_two(line[from], line[from + 1]) {
        2
    } else if len >= 3 && space_of_three(line[from], line[from + 1], line[from + 2]) {
        3
    } else {
        0
    }
}

/// The number of bytes of the white space character that `line` holds just
/// before `to`, from `from` on; zero if it holds none there.
fn back_space(line: &[u8], from: usize, to: usize) -> (k: usize)
    requires
        from <= to <= line@.len(),
    ensures
        k == space_at_back(line@.subrange(from as int, to as int)),
        k <= to - from,
{
    let len: usize = to - from;
    if len >= 1 && space(line[to - 1]) {
        1
    } else if len >= 2 && space_of_two(line[to - 2], line[to - 1]) {
        2
    } else if len >= 3 && space_of_three(line[to - 3], line[to - 2], line[to - 1]) {
        3
    } else {
        0
    }
}

/// The first place of `line`, from `from` on and before `to`, that holds no
/// white space; `to` if there is none.
fn skip_spaces(line: &[u8], from: usize, to: usize) -> (at: usize)
    requires
        from <= to <= line@.len(),
    ensures
        from <= at <= to,
        at == from + leading_spaces(line@.subrange(from as int, to as int)),
{
    let mut at: usize = from;
    loop
        invariant
            from <= at <= to <= line@.len(),
            leading_spaces(line@.subrange(from as int, to as int)) == (at - from) + leading_spaces(
                line@.subrange(at as int, to as int),
            ),
        ensures
            leading_spaces(line@.subrange(at as int, to as int)) == 0,
        decreases to - at,
    {
        let k: usize = front_space(line, at, to);
        if k == 0 {
            break ;
        }
        proof {
            assert(line@.subrange(at as int, to as int).skip(k as int) == line@.subrange(
                at + k,
                to as int,
            ));
        }
        at += k;
    }
    at
}

/// The end of `line`, after `from` and up to `to`, once the white space at
/// its back is left out.
fn drop_spaces(line: &[u8], from: usize, to: usize) -> (at: usize)
    requires
        from <= to <= line@.len(),
    ensures
        from <= at <= to,
        at == to - trailing_spaces(line@.subrange(from as int, to as int)),
{
    let mut at: usize = to;
    loop
        invariant
            from <= at <= to <= line@.len(),
            trailing_spaces(line@.subrange(from as int, to as int)) == (to - at) + trailing_spaces(
                line@.subrange(from as int, at as int),
            ),
        ensures
            trailing_spaces(line@.subrange(from as int, at as int)) == 0,
        decreases at - from,
    {
        let k: usize = back_space(line, from, at);
        if k == 0 {
            break ;
        }
        proof {
            let part = line@.subrange(from as int, at as int);
            assert(part.take(part.len() - k) == line@.subrange(from as int, at - k));
        }
        at -= k;
    }
    at
}

/// The place of the first colon of `line` from `from` on and before `to`;
/// `to` if there is none.
fn find_colon(line: &[u8], from: usize, to: usize) -> (at: usize)
    requires
        from <= to <= line@.len(),
    ensures
        from <= at <= to,
        at == from + colon_at(line@.subrange(from as int, to as int)),
{
    let mut at: usize = from;
    while at < to && line[at] != 0x3a
        invariant
            from <= at <= to <= line@.len(),
            forall|i: int| from <= i < at ==> #[trigger] line@[i] != 0x3a,
        decreases to - at,
    {
        at += 1;
    }
    proof {
        lemma_colon_at(line@.subrange(from as int, to as int), (at - from) as nat);
    }
    at
}

/// The number written by the digits of `line` from `from` on and before `to`.
fn parse_digits(line: &[u8], from: usize, to: usize) -> (r: Option<u32>)
    requires
        from <= to <= line@.len(),
    ensures
        r == unsigned_number(line@.subrange(from as int, to as int)),
{
    let ghost digits = line@.subrange(from as int, to as int);
    if from == to {
        return None;
    }
    let mut value: u32 = 0;
    let mut at: usize = from;
    while at < to
        invariant
            from <= at <= to <= line@.len(),
            digits == line@.subrange(from as int, to as int),
            all_digits(digits.take(at - from)),
            value == digits_value(digits.take(at - from)),
        decreases to - at,
    {
        let byte: u8 = line[at];
        let ghost seen = digits.take(at - from);
        let ghost more = digits.take(at - from + 1);
        proof {
            assert(more.drop_last() == seen);
            assert(more.last() == byte);
            assert(digits[at - from] == byte);
            assert(digits_value(more) == digits_value(seen) * 10 + (byte - 0x30) as nat);
        }
        if byte < 0x30 || byte > 0x39 {
            return None;
        }
        let digit: u32 = (byte - 0x30) as u32;
        if value > (u32::MAX - digit) / 10 {
            proof {
                if all_digits(digits) {
                    lemma_digits_value_grows(digits, at - from + 1);
                }
            }
            return None;
        }
        value = value * 10 + digit;
        proof {
            assert forall|i: int| 0 <= i < more.len() implies is_digit(#[trigger] more[i]) by {
                if i < seen.len() {
                    assert(more[i] == seen[i]);
                }
            }
        }
        at += 1;
    }
    proof {
        assert(digits.take(at - from) == digits);
    }
    Some(value)
}

/// The number written by the bytes of `line` from `from` on and before `to`.
fn parse_number(line: &[u8], from: usize, to: usize) -> (r: Option<u32>)
    requires
        from <= to <= line@.len(),
    ensures
        r == number(line@.subrange(from as int, to as int)),
{
    let ghost s = line@.subrange(from as int, to as int);
    if from < to && line[from] == 0x2b {
        proof {
            assert(s.skip(1) == line@.subrange(from + 1, to as int));
        }
        parse_digits(line, from + 1, to)
    } else {
        parse_digits(line, from, to)
    }
}

/// Reads the two numbers of a command from `line`. `None` where the line,
/// once the white space around it is left out, has no colon, or where one of
/// the two numbers is not an optional plus sign and decimal digits that fit
/// 32 bits.
pub fn parse_command(line: &[u8]) -> (r: Option<(u32, u32)>)
    ensures
        r == command(line@),
{
    let len: usize = line.len();
    let start: usize = skip_spaces(line, 0, len);
    let end: usize = drop_spaces(line, start, len);
    let ghost text = line@.subrange(start as int, end as int);
    proof {
        assert(line@.subrange(0, len as int) == line@);
        let front = line@.skip(leading_spaces(line@) as int);
        assert(front == line@.subrange(start as int, len as int));
        assert(front.take(front.len() - trailing_spaces(front)) == text);
        assert(text == trimmed(line@));
    }
    let colon: usize = find_colon(line, start, end);
    if colon == end {
        return None;
    }
    let second: usize = find_colon(line, colon + 1, end);
    let ghost rest = text.skip(colon - start + 1);
    proof {
        assert(rest == line@.subrange(colon + 1, end as int));
        assert(text.take(colon - start) == line@.subrange(start as int, colon as int));
        assert(rest.take(second - colon - 1) == line@.subrange(colon + 1, second as int));
    }
    let index: Option<u32> = parse_number(line, start, colon);
    let value: Option<u32> = parse_number(line, colon + 1, second);
    match (index, value) {
        (Some(i), Some(v)) => Some((i, v)),
        _ => None,
    }
}

} // verus!
