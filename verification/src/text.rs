//! Text as sequences of characters: searching, ordering, decimal numbers.

use vstd::prelude::*;
use vstd::string::*;

verus! {

/// `prefix` is what `text` begins with.
pub open spec fn begins_with(text: Seq<char>, prefix: Seq<char>) -> bool {
    prefix.len() <= text.len() && text.take(prefix.len() as int) == prefix
}

/// `suffix` is what `text` ends with.
pub open spec fn finishes_with(text: Seq<char>, suffix: Seq<char>) -> bool {
    suffix.len() <= text.len() && text.skip(text.len() - suffix.len()) == suffix
}

/// `needle` occurs in `text` at position `at`.
pub open spec fn occurs_at(text: Seq<char>, needle: Seq<char>, at: int) -> bool {
    0 <= at && at + needle.len() <= text.len() && text.subrange(at, at + needle.len()) == needle
}

/// `needle` occurs somewhere in `text`.
pub open spec fn holds_text(text: Seq<char>, needle: Seq<char>) -> bool {
    exists|at: int| #[trigger] occurs_at(text, needle, at)
}

/// The order of strings: by the first character in which they differ, a
/// proper prefix first.
pub open spec fn text_before(a: Seq<char>, b: Seq<char>) -> bool
    decreases a.len(),
{
    if b.len() == 0 {
        false
    } else if a.len() == 0 {
        true
    } else if a[0] != b[0] {
        a[0] < b[0]
    } else {
        text_before(a.drop_first(), b.drop_first())
    }
}

/// No text comes before itself.
pub proof fn text_before_irreflexive(a: Seq<char>)
    ensures
        !text_before(a, a),
    decreases a.len(),
{
    if a.len() > 0 {
        text_before_irreflexive(a.drop_first());
    }
}

/// Of two different texts one comes before the other.
pub proof fn text_before_total(a: Seq<char>, b: Seq<char>)
    requires
        a != b,
    ensures
        text_before(a, b) || text_before(b, a),
    decreases a.len(),
{
    if a.len() == 0 {
        assert(b.len() != 0) by {
            if b.len() == 0 {
                assert(a =~= b);
            }
        }
    } else if b.len() > 0 && a[0] == b[0] {
        assert(a.drop_first() != b.drop_first()) by {
            if a.drop_first() == b.drop_first() {
                assert(a =~= seq![a[0]] + a.drop_first());
                assert(b =~= seq![b[0]] + b.drop_first());
            }
        }
        text_before_total(a.drop_first(), b.drop_first());
    }
}

/// The order of texts is transitive.
pub proof fn text_before_transitive(a: Seq<char>, b: Seq<char>, c: Seq<char>)
    requires
        text_before(a, b),
        text_before(b, c),
    ensures
        text_before(a, c),
    decreases a.len(),
{
    if a.len() > 0 && b.len() > 0 && c.len() > 0 && a[0] == b[0] && b[0] == c[0] {
        text_before_transitive(a.drop_first(), b.drop_first(), c.drop_first());
    }
}

/// The characters of a text.
pub fn chars_of(text: &str) -> (chars: Vec<char>)
    ensures
        chars@ == text@,
{
    let mut chars: Vec<char> = Vec::new();
    for c in it: text.chars()
        invariant
            chars@ == text@.take(it.index() as int),
            it.seq() == text@,
    {
        assert(text@.take(it.index() + 1) =~= text@.take(it.index() as int).push(c));
        chars.push(c);
    }
    assert(text@.take(text@.len() as int) =~= text@);
    chars
}

/// Whether the characters `a` come before the characters `b`.
pub fn chars_before(a: &Vec<char>, b: &Vec<char>) -> (r: bool)
    ensures
        r == text_before(a@, b@),
{
    let mut i: usize = 0;
    assert(a@.skip(0) =~= a@ && b@.skip(0) =~= b@);
    while i < a.len() && i < b.len()
        invariant
            i <= a.len(),
            i <= b.len(),
            text_before(a@, b@) == text_before(a@.skip(i as int), b@.skip(i as int)),
        decreases a.len() - i,
    {
        if a[i] != b[i] {
            return a[i] < b[i];
        }
        assert(a@.skip(i as int).drop_first() =~= a@.skip(i + 1));
        assert(b@.skip(i as int).drop_first() =~= b@.skip(i + 1));
        i = i + 1;
    }
    i < b.len()
}

/// Whether `a` comes before `b`.
pub fn comes_before(a: &str, b: &str) -> (r: bool)
    ensures
        r == text_before(a@, b@),
{
    chars_before(&chars_of(a), &chars_of(b))
}

/// Whether the characters of `part` stand in `text` from position `at` on.
fn stands_at(text: &Vec<char>, part: &Vec<char>, at: usize) -> (r: bool)
    requires
        at + part.len() <= text.len(),
    ensures
        r == occurs_at(text@, part@, at as int),
{
    let mut i: usize = 0;
    while i < part.len()
        invariant
            i <= part.len(),
            at + part.len() <= text.len(),
            forall|j: int| 0 <= j < i ==> text@[at + j] == #[trigger] part@[j],
        decreases part.len() - i,
    {
        if text[at + i] != part[i] {
            assert(text@.subrange(at as int, at + part.len())[i as int] != part@[i as int]);
            return false;
        }
        i = i + 1;
    }
    assert(text@.subrange(at as int, at + part.len()) =~= part@);
    true
}

/// Whether `text` and `other` are the same text.
pub fn same_text(text: &str, other: &str) -> (r: bool)
    ensures
        r == (text@ == other@),
{
    let left = chars_of(text);
    let right = chars_of(other);
    if left.len() != right.len() {
        return false;
    }
    let r = stands_at(&left, &right, 0);
    assert(left@.subrange(0, left@.len() as int) =~= left@);
    r
}

/// Whether `text` begins with `prefix`.
pub fn starts_with(text: &str, prefix: &str) -> (r: bool)
    ensures
        r == begins_with(text@, prefix@),
{
    let left = chars_of(text);
    let right = chars_of(prefix);
    if left.len() < right.len() {
        return false;
    }
    assert(text@.take(prefix@.len() as int) =~= text@.subrange(0, prefix@.len() as int));
    stands_at(&left, &right, 0)
}

/// Whether `text` ends with `suffix`.
pub fn ends_with(text: &str, suffix: &str) -> (r: bool)
    ensures
        r == finishes_with(text@, suffix@),
{
    let left = chars_of(text);
    let right = chars_of(suffix);
    if left.len() < right.len() {
        return false;
    }
    let at: usize = left.len() - right.len();
    assert(text@.skip(at as int) =~= text@.subrange(at as int, at + suffix@.len()));
    stands_at(&left, &right, at)
}

/// Whether `needle` occurs somewhere in `text`.
pub fn contains(text: &str, needle: &str) -> (r: bool)
    ensures
        r == holds_text(text@, needle@),
{
    let left = chars_of(text);
    let right = chars_of(needle);
    if left.len() < right.len() {
        return false;
    }
    let last: usize = left.len() - right.len();
    let mut at: usize = 0;
    loop
        invariant
            at <= last,
            last == left.len() - right.len(),
            left@ == text@,
            right@ == needle@,
            forall|k: int| 0 <= k < at ==> !#[trigger] occurs_at(text@, needle@, k),
        decreases last - at,
    {
        if stands_at(&left, &right, at) {
            return true;
        }
        if at == last {
            assert(forall|k: int| !#[trigger] occurs_at(text@, needle@, k));
            return false;
        }
        at = at + 1;
    }
}

/// The character for a digit below ten.
pub open spec fn digit_char(d: int) -> char {
    if d == 0 {
        '0'
    } else if d == 1 {
        '1'
    } else if d == 2 {
        '2'
    } else if d == 3 {
        '3'
    } else if d == 4 {
        '4'
    } else if d == 5 {
        '5'
    } else if d == 6 {
        '6'
    } else if d == 7 {
        '7'
    } else if d == 8 {
        '8'
    } else {
        '9'
    }
}

/// The decimal digits of `n`, without leading zeros.
pub open spec fn decimal_text(n: nat) -> Seq<char>
    decreases n,
{
    if n < 10 {
        seq![digit_char(n as int)]
    } else {
        decimal_text(n / 10).push(digit_char((n % 10) as int))
    }
}

/// The text of one digit.
fn digit_text(d: u64) -> (r: &'static str)
    requires
        d < 10,
    ensures
        r@ == seq![digit_char(d as int)],
{
    proof {
        reveal_strlit("0");
        reveal_strlit("1");
        reveal_strlit("2");
        reveal_strlit("3");
        reveal_strlit("4");
        reveal_strlit("5");
        reveal_strlit("6");
        reveal_strlit("7");
        reveal_strlit("8");
        reveal_strlit("9");
    }
    if d == 0 {
        "0"
    } else if d == 1 {
        "1"
    } else if d == 2 {
        "2"
    } else if d == 3 {
        "3"
    } else if d == 4 {
        "4"
    } else if d == 5 {
        "5"
    } else if d == 6 {
        "6"
    } else if d == 7 {
        "7"
    } else if d == 8 {
        "8"
    } else {
        "9"
    }
}

/// The decimal text of `n`.
pub fn decimal(n: u64) -> (r: String)
    ensures
        r@ == decimal_text(n as nat),
    decreases n,
{
    let mut text = if n < 10 {
        String::new()
    } else {
        decimal(n / 10)
    };
    text.append(digit_text(n % 10));
    assert(text@ =~= decimal_text(n as nat));
    text
}

/// `c` is one of the ten digits.
pub open spec fn is_digit(c: char) -> bool {
    '0' <= c && c <= '9'
}

/// The number that a sequence of digits stands for.
pub open spec fn digits_value(digits: Seq<char>) -> nat
    decreases digits.len(),
{
    if digits.len() == 0 {
        0
    } else {
        digits_value(digits.drop_last()) * 10 + (digits.last() as nat - '0' as nat) as nat
    }
}

/// Every character is a digit, and there is one at least.
pub open spec fn is_digits(text: Seq<char>) -> bool {
    text.len() > 0 && forall|i: int| 0 <= i < text.len() ==> is_digit(#[trigger] text[i])
}

/// The number that `text` gives: an optional `+`, then one digit or more, of a
/// value no greater than `max`.
pub open spec fn parsed_number(text: Seq<char>, max: nat) -> Option<nat> {
    let digits = if text.len() > 0 && text[0] == '+' {
        text.drop_first()
    } else {
        text
    };
    if is_digits(digits) && digits_value(digits) <= max {
        Some(digits_value(digits))
    } else {
        None
    }
}

/// A longer row of digits stands for no smaller number.
proof fn digits_value_grows(digits: Seq<char>, n: int)
    requires
        0 <= n <= digits.len(),
    ensures
        digits_value(digits.take(n)) <= digits_value(digits),
    decreases digits.len(),
{
    if n == digits.len() {
        assert(digits.take(n) =~= digits);
    } else {
        digits_value_grows(digits.drop_last(), n);
        assert(digits.drop_last().take(n) =~= digits.take(n));
    }
}

/// Reads a number no greater than `max`.
pub fn parse_number(text: &str, max: u64) -> (r: Option<u64>)
    ensures
        match r {
            Some(n) => parsed_number(text@, max as nat) == Some(n as nat),
            None => parsed_number(text@, max as nat) is None,
        },
{
    let chars = chars_of(text);
    let start: usize = if chars.len() > 0 && chars[0] == '+' {
        1
    } else {
        0
    };
    let ghost digits = text@.skip(start as int);
    assert(text@.skip(0) =~= text@);
    assert(text@.len() > 0 ==> text@.skip(1) =~= text@.drop_first());
    if chars.len() == start {
        return None;
    }
    let mut value: u64 = 0;
    let mut i: usize = start;
    while i < chars.len()
        invariant
            start <= i <= chars.len(),
            chars@ == text@,
            digits == text@.skip(start as int),
            digits == (if text@.len() > 0 && text@[0] == '+' {
                text@.drop_first()
            } else {
                text@
            }),
            value <= max,
            value == digits_value(digits.take(i - start)),
            forall|j: int| 0 <= j < i - start ==> is_digit(#[trigger] digits[j]),
        decreases chars.len() - i,
    {
        let c = chars[i];
        assert(c == digits[i - start]);
        if !(c >= '0' && c <= '9') {
            assert(!is_digit(digits[i - start]));
            return None;
        }
        let d: u64 = (c as u32 - '0' as u32) as u64;
        assert(digits.take(i + 1 - start).drop_last() =~= digits.take(i - start));
        assert(digits_value(digits.take(i + 1 - start)) == value * 10 + d);
        if d > max || value > (max - d) / 10 {
            proof {
                digits_value_grows(digits, i + 1 - start);
            }
            return None;
        }
        value = value * 10 + d;
        i = i + 1;
    }
    assert(digits.take(digits.len() as int) =~= digits);
    Some(value)
}

/// Reading the decimal text of a number gives the number back.
pub proof fn decimal_round_trip(n: nat, max: nat)
    requires
        n <= max,
    ensures
        parsed_number(decimal_text(n), max) == Some(n),
{
    decimal_is_digits(n);
    assert(is_digit(decimal_text(n)[0]));
}

/// The decimal text of a number is made of digits that stand for it.
pub proof fn decimal_is_digits(n: nat)
    ensures
        is_digits(decimal_text(n)),
        digits_value(decimal_text(n)) == n,
    decreases n,
{
    if n >= 10 {
        decimal_is_digits(n / 10);
        assert(decimal_text(n).drop_last() =~= decimal_text(n / 10));
    } else {
        assert(decimal_text(n).drop_last() =~= Seq::<char>::empty());
        assert(digits_value(Seq::<char>::empty()) == 0);
    }
}

/// The parts of a text between the places where `sep` stands.
pub open spec fn parts(text: Seq<char>, sep: char) -> Seq<Seq<char>>
    decreases text.len(),
{
    if text.len() == 0 {
        seq![Seq::<char>::empty()]
    } else {
        let rest = parts(text.drop_last(), sep);
        if text.last() == sep {
            rest.push(Seq::<char>::empty())
        } else {
            rest.drop_last().push(rest.last().push(text.last()))
        }
    }
}

/// The parts of a text between the places where `sep` stands.
pub fn split(text: &str, sep: char) -> (r: Vec<String>)
    ensures
        r@.map_values(|s: String| s@) == parts(text@, sep),
{
    let chars = chars_of(text);
    let mut r: Vec<String> = Vec::new();
    let mut start: usize = 0;
    let mut i: usize = 0;
    assert(text@.subrange(0, 0) =~= Seq::<char>::empty());
    assert(r@.map_values(|s: String| s@).push(text@.subrange(0, 0)) =~= seq![Seq::<char>::empty()]);
    assert(text@.take(0) =~= Seq::<char>::empty());
    while i < chars.len()
        invariant
            start <= i <= chars.len(),
            chars@ == text@,
            parts(text@.take(i as int), sep) == r@.map_values(|s: String| s@).push(
                text@.subrange(start as int, i as int),
            ),
        decreases chars.len() - i,
    {
        let ghost done = r@.map_values(|s: String| s@);
        let ghost part = text@.subrange(start as int, i as int);
        assert(text@.take(i + 1).drop_last() =~= text@.take(i as int));
        assert(text@.take(i + 1).last() == chars[i as int]);
        if chars[i] == sep {
            r.push(text.substring_char(start, i).to_owned());
            assert(r@.map_values(|s: String| s@) =~= done.push(part));
            assert(text@.subrange(i + 1, i + 1) =~= Seq::<char>::empty());
            start = i + 1;
        } else {
            assert(done.push(part).drop_last() =~= done);
            assert(text@.subrange(start as int, i + 1) =~= part.push(chars[i as int]));
        }
        i = i + 1;
    }
    let ghost done = r@.map_values(|s: String| s@);
    assert(text@.take(text@.len() as int) =~= text@);
    r.push(text.substring_char(start, chars.len()).to_owned());
    assert(r@.map_values(|s: String| s@) =~= done.push(
        text@.subrange(start as int, text@.len() as int),
    ));
    r
}

/// A text without the separator is its only part.
pub proof fn parts_of_whole(text: Seq<char>, sep: char)
    requires
        !text.contains(sep),
    ensures
        parts(text, sep) == seq![text],
    decreases text.len(),
{
    if text.len() > 0 {
        assert(text.contains(text.last()));
        assert forall|c: char| text.drop_last().contains(c) implies text.contains(c) by {
            let i = choose|i: int| 0 <= i < text.drop_last().len() && text.drop_last()[i] == c;
            assert(text[i] == c);
        }
        parts_of_whole(text.drop_last(), sep);
        assert(text.drop_last().push(text.last()) =~= text);
        assert(parts(text, sep) =~= seq![text]);
    } else {
        assert(text =~= Seq::<char>::empty());
    }
}

/// Joining two texts with the separator joins their parts.
pub proof fn parts_of_joined(left: Seq<char>, right: Seq<char>, sep: char)
    ensures
        parts(left + seq![sep] + right, sep) == parts(left, sep) + parts(right, sep),
        parts(right, sep).len() > 0,
    decreases right.len(),
{
    let text = left + seq![sep] + right;
    if right.len() == 0 {
        assert(text.drop_last() =~= left);
        assert(parts(text, sep) =~= parts(left, sep) + parts(right, sep));
    } else {
        parts_of_joined(left, right.drop_last(), sep);
        assert(text.drop_last() =~= left + seq![sep] + right.drop_last());
        let l = parts(left, sep);
        let r = parts(right.drop_last(), sep);
        assert((l + r).last() == r.last());
        assert((l + r).drop_last() =~= l + r.drop_last());
        assert(parts(text, sep) =~= l + parts(right, sep));
    }
}

/// A part before, `text`, and a part after, in one text.
pub fn around(before: &str, text: &str, after: &str) -> (r: String)
    ensures
        r@ == before@ + text@ + after@,
{
    let mut r = before.to_owned();
    r.append(text);
    r.append(after);
    r
}

/// A text begins with what stands first in it, finishes with what stands last, and
/// holds what stands anywhere in it; and it does so of nothing else.
pub proof fn pieces_are_found(before: Seq<char>, piece: Seq<char>, after: Seq<char>)
    ensures
        begins_with(piece + after, piece),
        finishes_with(before + piece, piece),
        holds_text(before + piece + after, piece),
        forall|text: Seq<char>| #[trigger]
            begins_with(text, piece) ==> text == piece + text.skip(piece.len() as int),
        forall|text: Seq<char>| #[trigger]
            finishes_with(text, piece) ==> text == text.take(text.len() - piece.len()) + piece,
        forall|text: Seq<char>| #[trigger]
            holds_text(text, piece) ==> exists|at: int|
                0 <= at <= text.len() && text == #[trigger] text.take(at) + piece + text.skip(
                    at + piece.len(),
                ),
{
    assert((piece + after).take(piece.len() as int) =~= piece);
    assert((before + piece).skip(before.len() as int) =~= piece);
    let whole = before + piece + after;
    let at = before.len() as int;
    assert(whole.subrange(at, at + piece.len()) =~= piece);
    assert(occurs_at(whole, piece, at));
    assert forall|text: Seq<char>| #[trigger] begins_with(text, piece) implies text == piece
        + text.skip(piece.len() as int) by {
        assert(text =~= text.take(piece.len() as int) + text.skip(piece.len() as int));
    }
    assert forall|text: Seq<char>| #[trigger] finishes_with(text, piece) implies text == text.take(
        text.len() - piece.len(),
    ) + piece by {
        let n = text.len() - piece.len();
        assert(text =~= text.take(n) + text.skip(n));
    }
    assert forall|text: Seq<char>| #[trigger] holds_text(text, piece) implies exists|at: int|
        0 <= at <= text.len() && text == #[trigger] text.take(at) + piece + text.skip(
            at + piece.len(),
        ) by {
        let at = choose|at: int| #[trigger] occurs_at(text, piece, at);
        assert(text =~= text.take(at) + text.subrange(at, at + piece.len()) + text.skip(
            at + piece.len(),
        ));
    }
}

/// Texts are ordered by the first character in which they differ, and a text comes
/// before every longer one that begins with it.
pub proof fn order_is_by_the_first_difference(
    common: Seq<char>,
    a: char,
    b: char,
    rest: Seq<char>,
    other: Seq<char>,
)
    requires
        a < b,
    ensures
        text_before(common + seq![a] + rest, common + seq![b] + other),
        !text_before(common + seq![b] + other, common + seq![a] + rest),
        text_before(common, common + seq![a] + rest),
        !text_before(common + seq![a] + rest, common),
    decreases common.len(),
{
    let first = common + seq![a] + rest;
    let second = common + seq![b] + other;
    if common.len() > 0 {
        let less = common.drop_first();
        order_is_by_the_first_difference(less, a, b, rest, other);
        assert(first.drop_first() =~= less + seq![a] + rest);
        assert(second.drop_first() =~= less + seq![b] + other);
    } else {
        assert(first[0] == a && second[0] == b);
    }
}

/// Numbers are written without zeros before them.
pub proof fn decimal_has_no_leading_zero(n: nat)
    ensures
        decimal_text(n)[0] == '0' <==> n == 0,
        n < 10 ==> decimal_text(n).len() == 1,
        n >= 10 ==> decimal_text(n).len() == decimal_text(n / 10).len() + 1,
        decimal_text(n).len() >= 1,
    decreases n,
{
    if n >= 10 {
        decimal_has_no_leading_zero(n / 10);
    }
}

/// A number is read from digits alone, one by one and up to a bound, with or without
/// a plus before them.
pub proof fn numbers_are_read_digit_by_digit(digits: Seq<char>, digit: char, max: nat)
    requires
        '0' <= digit && digit <= '9',
    ensures
        parsed_number(Seq::empty(), max) is None,
        parsed_number(seq![digit], max) is Some ==> parsed_number(seq![digit], max)->Some_0
            == digit as nat - '0' as nat,
        is_digits(digits) && parsed_number(digits.push(digit), max) is Some ==> {
            &&& parsed_number(digits, max) is Some
            &&& parsed_number(digits.push(digit), max)->Some_0 == 10 * parsed_number(
                digits,
                max,
            )->Some_0 + (digit as nat - '0' as nat)
        },
        parsed_number(digits, max) matches Some(n) ==> n <= max,
        is_digits(digits) ==> parsed_number(seq!['+'] + digits, max) == parsed_number(digits, max),
{
    let one = seq![digit];
    assert(one.drop_last() =~= Seq::<char>::empty());
    assert(one[0] == digit && one.last() == digit);
    assert(digits_value(one.drop_last()) == 0);
    assert(digits_value(one) == digit as nat - '0' as nat);
    let more = digits.push(digit);
    assert(more.drop_last() =~= digits);
    if digits.len() > 0 {
        assert(more[0] == digits[0]);
    }
    let signed = seq!['+'] + digits;
    assert(signed.drop_first() =~= digits);
    assert(signed[0] == '+');
    if is_digits(digits) {
        assert(is_digit(digits[0]));
    }
}

} // verus!
