//! Text primitives: comparison, decimal numbers, splitting and joining.
//!
//! Every function here is specified over the characters of a string
//! (`Seq<char>`); the order of two strings is the order of their UTF-8 bytes.

use vstd::prelude::*;
use vstd::string::*;
use vstd::utf8::*;

verus! {

/// Lexicographic order of byte sequences.
pub open spec fn bytes_before(a: Seq<u8>, b: Seq<u8>) -> bool
    decreases a.len(),
{
    if b.len() == 0 {
        false
    } else if a.len() == 0 {
        true
    } else if a[0] != b[0] {
        a[0] < b[0]
    } else {
        bytes_before(a.drop_first(), b.drop_first())
    }
}

/// `a` sorts strictly before `b`: their UTF-8 bytes, compared lexicographically.
pub open spec fn text_before(a: Seq<char>, b: Seq<char>) -> bool {
    bytes_before(encode_utf8(a), encode_utf8(b))
}

proof fn lemma_bytes_before_irreflexive(a: Seq<u8>)
    ensures
        !bytes_before(a, a),
    decreases a.len(),
{
    if a.len() > 0 {
        lemma_bytes_before_irreflexive(a.drop_first());
    }
}

proof fn lemma_bytes_before_transitive(a: Seq<u8>, b: Seq<u8>, c: Seq<u8>)
    requires
        bytes_before(a, b),
        bytes_before(b, c),
    ensures
        bytes_before(a, c),
    decreases a.len(),
{
    if a.len() > 0 && b.len() > 0 && c.len() > 0 && a[0] == b[0] && b[0] == c[0] {
        lemma_bytes_before_transitive(a.drop_first(), b.drop_first(), c.drop_first());
    }
}

proof fn lemma_bytes_before_total(a: Seq<u8>, b: Seq<u8>)
    ensures
        a == b || bytes_before(a, b) || bytes_before(b, a),
    decreases a.len(),
{
    if a.len() > 0 && b.len() > 0 && a[0] == b[0] {
        lemma_bytes_before_total(a.drop_first(), b.drop_first());
        if a.drop_first() == b.drop_first() {
            assert(a =~= seq![a[0]] + a.drop_first());
            assert(b =~= seq![b[0]] + b.drop_first());
        }
    } else if a.len() == 0 && b.len() == 0 {
        assert(a =~= b);
    }
}

/// Distinct strings have distinct UTF-8 encodings.
pub proof fn lemma_encoding_injective(a: Seq<char>, b: Seq<char>)
    requires
        encode_utf8(a) == encode_utf8(b),
    ensures
        a == b,
{
    encode_utf8_decode_utf8(a);
    encode_utf8_decode_utf8(b);
}

/// The order of strings is a strict total order.
pub proof fn text_order_is_strict_and_total(a: Seq<char>, b: Seq<char>, c: Seq<char>)
    ensures
        !text_before(a, a),
        text_before(a, b) && text_before(b, c) ==> text_before(a, c),
        a == b || text_before(a, b) || text_before(b, a),
        !(text_before(a, b) && text_before(b, a)),
{
    let (x, y, z) = (encode_utf8(a), encode_utf8(b), encode_utf8(c));
    lemma_bytes_before_irreflexive(x);
    if bytes_before(x, y) && bytes_before(y, z) {
        lemma_bytes_before_transitive(x, y, z);
    }
    if bytes_before(x, y) && bytes_before(y, x) {
        lemma_bytes_before_transitive(x, y, x);
    }
    lemma_bytes_before_total(x, y);
    if x == y {
        lemma_encoding_injective(a, b);
    }
}

/// How two strings are ordered.
#[derive(Clone, Copy, Debug, PartialEq, Eq, Structural)]
pub enum TextOrder {
    Before,
    Same,
    After,
}

/// Compares two strings by their UTF-8 bytes.
pub fn order_of(a: &str, b: &str) -> (order: TextOrder)
    ensures
        (order is Before) == text_before(a@, b@),
        (order is Same) == (a@ == b@),
        (order is After) == text_before(b@, a@),
{
    let x = a.as_bytes();
    let y = b.as_bytes();
    let mut i: usize = 0;
    proof {
        text_order_is_strict_and_total(a@, b@, a@);
        assert(x@.skip(0) =~= x@);
        assert(y@.skip(0) =~= y@);
    }
    while i < x.len() && i < y.len()
        invariant
            i <= x@.len(),
            i <= y@.len(),
            x@ == encode_utf8(a@),
            y@ == encode_utf8(b@),
            x@.take(i as int) == y@.take(i as int),
            bytes_before(x@, y@) == bytes_before(x@.skip(i as int), y@.skip(i as int)),
            bytes_before(y@, x@) == bytes_before(y@.skip(i as int), x@.skip(i as int)),
        decreases x@.len() - i,
    {
        let p: u8 = x[i];
        let q: u8 = y[i];
        proof {
            text_order_is_strict_and_total(a@, b@, a@);
            text_order_is_strict_and_total(b@, a@, b@);
            assert(x@.skip(i as int).drop_first() =~= x@.skip(i + 1));
            assert(y@.skip(i as int).drop_first() =~= y@.skip(i + 1));
        }
        if p < q {
            return TextOrder::Before;
        }
        if q < p {
            return TextOrder::After;
        }
        proof {
            assert(x@.take(i + 1) =~= x@.take(i as int).push(p));
            assert(y@.take(i + 1) =~= y@.take(i as int).push(q));
        }
        i = i + 1;
    }
    proof {
        text_order_is_strict_and_total(a@, b@, a@);
        text_order_is_strict_and_total(b@, a@, b@);
        assert(x@.take(x@.len() as int) =~= x@);
        assert(y@.take(y@.len() as int) =~= y@);
    }
    if i < y.len() {
        TextOrder::Before
    } else if i < x.len() {
        TextOrder::After
    } else {
        proof {
            lemma_encoding_injective(a@, b@);
        }
        TextOrder::Same
    }
}

/// Whether two strings hold the same characters.
pub fn same_text(a: &str, b: &str) -> (same: bool)
    ensures
        same == (a@ == b@),
{
    match order_of(a, b) {
        TextOrder::Same => true,
        _ => false,
    }
}

/// The decimal digit of a number below ten.
pub open spec fn digit_char(d: nat) -> char {
    (48 + d) as char
}

/// The decimal digits of a number, most significant first, without leading zeros.
pub open spec fn decimal(n: nat) -> Seq<char>
    decreases n,
{
    if n < 10 {
        seq![digit_char(n)]
    } else {
        decimal(n / 10).push(digit_char(n % 10))
    }
}

pub open spec fn is_digit(c: char) -> bool {
    '0' <= c <= '9'
}

pub open spec fn all_digits(s: Seq<char>) -> bool {
    forall|i: int| 0 <= i < s.len() ==> is_digit(#[trigger] s[i])
}

/// The number that a string of decimal digits denotes.
pub open spec fn digits_value(s: Seq<char>) -> nat
    decreases s.len(),
{
    if s.len() == 0 {
        0
    } else {
        (digits_value(s.drop_last()) * 10 + (s.last() as u32 - 48)) as nat
    }
}

/// Reads an unsigned decimal number of at most `max`: an optional plus sign, then
/// one or more digits and nothing else.
pub open spec fn parse_number(s: Seq<char>, max: nat) -> Option<nat> {
    let digits = if s.len() > 0 && s[0] == '+' {
        s.drop_first()
    } else {
        s
    };
    if digits.len() > 0 && all_digits(digits) && digits_value(digits) <= max {
        Some(digits_value(digits))
    } else {
        None
    }
}

/// A decimal rendering consists of digits and denotes the number it renders.
pub proof fn decimal_denotes(n: nat)
    ensures
        decimal(n).len() > 0,
        all_digits(decimal(n)),
        digits_value(decimal(n)) == n,
    decreases n,
{
    reveal_with_fuel(digits_value, 2);
    if n < 10 {
        assert(decimal(n).drop_last() =~= Seq::<char>::empty());
        assert(decimal(n).last() == digit_char(n));
    } else {
        decimal_denotes(n / 10);
        assert(decimal(n).drop_last() =~= decimal(n / 10));
        assert(decimal(n).last() == digit_char(n % 10));
    }
}

/// Reading back a rendered number gives the number, when it is within the limit.
pub proof fn parse_undoes_decimal(n: nat, max: nat)
    requires
        n <= max,
    ensures
        parse_number(decimal(n), max) == Some(n),
{
    decimal_denotes(n);
}

/// Different numbers render differently.
pub proof fn decimal_is_injective(a: nat, b: nat)
    requires
        decimal(a) == decimal(b),
    ensures
        a == b,
{
    decimal_denotes(a);
    decimal_denotes(b);
}

fn digit_text(d: u64) -> (text: &'static str)
    requires
        d < 10,
    ensures
        text@ == seq![digit_char(d as nat)],
{
    proof {
        reveal_strlit("0");
        reveal_strlit("1");
        reveal_strlit("2");
        reveal_strlit("3");
        reveal_strlit("4");
        reveal_strlit("5");
        reveal_strlit("6");
        reveal_strlit("7");
        reveal_strlit("8");
        reveal_strlit("9");
    }
    let text: &'static str = match d {
        0 => "0",
        1 => "1",
        2 => "2",
        3 => "3",
        4 => "4",
        5 => "5",
        6 => "6",
        7 => "7",
        8 => "8",
        _ => "9",
    };
    assert(text@ =~= seq![digit_char(d as nat)]);
    text
}

/// Appends the decimal rendering of a number.
pub fn push_decimal(out: &mut String, n: u64)
    ensures
        final(out)@ == old(out)@ + decimal(n as nat),
{
    push_wide_decimal(out, n as u128);
}

/// Appends the decimal rendering of a number of up to 128 bits.
pub fn push_wide_decimal(out: &mut String, n: u128)
    ensures
        final(out)@ == old(out)@ + decimal(n as nat),
    decreases n,
{
    if n < 10 {
        out.append(digit_text(n as u64));
    } else {
        push_wide_decimal(out, n / 10);
        out.append(digit_text((n % 10) as u64));
        proof {
            assert(decimal(n as nat) =~= decimal((n / 10) as nat) + seq![
                digit_char((n % 10) as nat),
            ]);
            assert(old(out)@ + decimal((n / 10) as nat) + seq![digit_char((n % 10) as nat)]
                =~= old(out)@ + decimal(n as nat));
        }
    }
}

/// The decimal rendering of a number.
pub fn decimal_text(n: u64) -> (text: String)
    ensures
        text@ == decimal(n as nat),
{
    let mut text = String::new();
    push_decimal(&mut text, n);
    assert(Seq::<char>::empty() + decimal(n as nat) =~= decimal(n as nat));
    text
}

/// The characters of a string.
pub fn chars_of(s: &str) -> (chars: Vec<char>)
    ensures
        chars@ == s@,
{
    let mut chars: Vec<char> = Vec::new();
    for c in it: s.chars()
        invariant
            chars@ == it.seq().take(it.index() as int),
            it.seq() == s@,
    {
        chars.push(c);
        proof {
            assert(it.seq().take(it.index() + 1) =~= it.seq().take(it.index() as int).push(c));
        }
    }
    assert(s@.take(s@.len() as int) =~= s@);
    chars
}

proof fn lemma_digits_value_grows(s: Seq<char>, i: int)
    requires
        all_digits(s),
        0 <= i <= s.len(),
    ensures
        digits_value(s.take(i)) <= digits_value(s),
    decreases s.len() - i,
{
    if i < s.len() {
        lemma_digits_value_grows(s, i + 1);
        assert(s.take(i + 1).drop_last() =~= s.take(i));
        assert(s.take(i + 1).last() == s[i]);
    } else {
        assert(s.take(i) =~= s);
    }
}

/// Whether a text begins with another.
pub open spec fn begins_with(s: Seq<char>, prefix: Seq<char>) -> bool {
    prefix.len() <= s.len() && s.take(prefix.len() as int) == prefix
}

/// Whether a text begins with another.
pub fn has_prefix(s: &str, prefix: &str) -> (yes: bool)
    ensures
        yes == begins_with(s@, prefix@),
{
    let (chars, wanted) = (chars_of(s), chars_of(prefix));
    if chars.len() < wanted.len() {
        return false;
    }
    let mut i: usize = 0;
    while i < wanted.len()
        invariant
            i <= wanted.len() <= chars.len(),
            chars@ == s@,
            wanted@ == prefix@,
            forall|j: int| 0 <= j < i ==> chars@[j] == #[trigger] wanted@[j],
        decreases wanted.len() - i,
    {
        if chars[i] != wanted[i] {
            assert(s@.take(prefix@.len() as int)[i as int] != prefix@[i as int]);
            return false;
        }
        i += 1;
    }
    assert(s@.take(prefix@.len() as int) =~= prefix@);
    true
}

/// Reads an unsigned decimal number of at most `max`.
pub fn parse_decimal(s: &str, max: u64) -> (number: Option<u64>)
    ensures
        match number {
            Some(n) => parse_number(s@, max as nat) == Some(n as nat),
            None => parse_number(s@, max as nat) is None,
        },
{
    let chars = chars_of(s);
    let start: usize = if chars.len() > 0 && chars[0] == '+' {
        1
    } else {
        0
    };
    let ghost digits = s@.skip(start as int);
    proof {
        assert(start == 1 ==> digits =~= s@.drop_first());
        assert(start == 0 ==> digits =~= s@);
    }
    if chars.len() == start {
        return None;
    }
    let mut value: u64 = 0;
    let mut i: usize = start;
    assert(digits.take(0) =~= Seq::<char>::empty());
    while i < chars.len()
        invariant
            chars@ == s@,
            start <= i <= chars@.len(),
            digits == s@.skip(start as int),
            digits == (if s@.len() > 0 && s@[0] == '+' {
                s@.drop_first()
            } else {
                s@
            }),
            value <= max,
            all_digits(digits.take(i - start)),
            digits_value(digits.take(i - start)) == value,
        decreases chars@.len() - i,
    {
        let c: char = chars[i];
        assert(digits[i - start] == c);
        if c < '0' || c > '9' {
            return None;
        }
        let d: u64 = (c as u32 - 48) as u64;
        proof {
            assert(digits.take(i - start + 1).drop_last() =~= digits.take(i - start));
            assert(digits.take(i - start + 1).last() == c);
            assert(digits_value(digits.take(i - start + 1)) == value * 10 + d);
            if all_digits(digits) {
                lemma_digits_value_grows(digits, i - start + 1);
            }
        }
        if d > max || value > (max - d) / 10 {
            return None;
        }
        value = value * 10 + d;
        i = i + 1;
    }
    assert(digits.take(i - start) =~= digits);
    Some(value)
}

/// The position of the last occurrence of a character.
pub open spec fn last_position(s: Seq<char>, c: char) -> Option<int>
    decreases s.len(),
{
    if s.len() == 0 {
        None
    } else if s.last() == c {
        Some(s.len() - 1)
    } else {
        last_position(s.drop_last(), c)
    }
}

/// Splits a string at its last occurrence of a character, which is left out.
pub open spec fn split_last(s: Seq<char>, c: char) -> Option<(Seq<char>, Seq<char>)> {
    match last_position(s, c) {
        Some(i) => Some((s.take(i), s.skip(i + 1))),
        None => None,
    }
}

/// Splits a string at its last occurrence of a character, which is left out.
pub fn split_at_last(s: &str, c: char) -> (parts: Option<(String, String)>)
    ensures
        match parts {
            Some((left, right)) => split_last(s@, c) == Some((left@, right@)),
            None => split_last(s@, c) is None,
        },
{
    let chars = chars_of(s);
    let mut i: usize = chars.len();
    assert(s@.take(i as int) =~= s@);
    while i > 0
        invariant
            chars@ == s@,
            i <= chars@.len(),
            last_position(s@, c) == last_position(s@.take(i as int), c),
        decreases i,
    {
        assert(s@.take(i as int).drop_last() =~= s@.take(i - 1));
        assert(s@.take(i as int).last() == s@[i - 1]);
        if chars[i - 1] == c {
            let left = s.substring_char(0, i - 1).to_string();
            let right = s.substring_char(i, chars.len()).to_string();
            assert(left@ =~= s@.take(i - 1));
            assert(right@ =~= s@.skip(i as int));
            return Some((left, right));
        }
        i = i - 1;
    }
    None
}

/// Two strings, one after the other.
pub fn join2(a: &str, b: &str) -> (text: String)
    ensures
        text@ == a@ + b@,
{
    let mut text = a.to_string();
    text.append(b);
    text
}

/// Three strings, one after the other.
pub fn join3(a: &str, b: &str, c: &str) -> (text: String)
    ensures
        text@ == a@ + b@ + c@,
{
    let mut text = join2(a, b);
    text.append(c);
    text
}

/// A text is split at the last occurrence of a character, into what stands before it and what
/// stands after it; one without the character is not split.
pub proof fn texts_split_at_the_last_occurrence(before: Seq<char>, c: char, after: Seq<char>)
    requires
        !after.contains(c),
    ensures
        split_last(before + seq![c] + after, c) == Some((before, after)),
        split_last(after, c) is None,
{
    let s = before + seq![c] + after;
    lemma_last_position(before, c, after);
    assert(s.take(before.len() as int) =~= before);
    assert(s.skip(before.len() as int + 1) =~= after);
}

proof fn lemma_last_position(before: Seq<char>, c: char, after: Seq<char>)
    requires
        !after.contains(c),
    ensures
        last_position(before + seq![c] + after, c) == Some(before.len() as int),
        last_position(after, c) is None,
    decreases after.len(),
{
    let s = before + seq![c] + after;
    if after.len() > 0 {
        let rest = after.drop_last();
        assert(after.contains(after.last()));
        assert(!rest.contains(c)) by {
            if rest.contains(c) {
                let i = rest.index_of(c);
                assert(after[i] == c);
            }
        }
        lemma_last_position(before, c, rest);
        assert(s.last() == after.last());
        assert(s.drop_last() =~= before + seq![c] + rest);
    }
}

/// A text begins with another exactly where something follows that other in it.
pub proof fn texts_begin_with_their_prefixes(s: Seq<char>, prefix: Seq<char>, rest: Seq<char>)
    ensures
        begins_with(prefix + rest, prefix),
        begins_with(s, prefix) ==> s == prefix + s.skip(prefix.len() as int),
{
    assert((prefix + rest).take(prefix.len() as int) =~= prefix);
    if begins_with(s, prefix) {
        assert(s =~= s.take(prefix.len() as int) + s.skip(prefix.len() as int));
    }
}

/// Only digits are read as a number, after a plus sign where there is one, and only up to the
/// limit.
pub proof fn only_digits_are_numbers(s: Seq<char>, max: nat)
    ensures
        parse_number(s, max) matches Some(n) ==> n <= max,
        s.len() == 0 ==> parse_number(s, max) is None,
        (exists|i: int|
            0 <= i < s.len() && !('0' <= (#[trigger] s[i]) && s[i] <= '9') && !(i == 0 && s[i] == '+'))
            ==> parse_number(s, max) is None,
        all_digits(s) && s.len() > 0 ==> parse_number(seq!['+'] + s, max) == parse_number(s, max),
{
    if exists|i: int|
        0 <= i < s.len() && !('0' <= (#[trigger] s[i]) && s[i] <= '9') && !(i == 0 && s[i] == '+') {
        let i = choose|i: int|
            0 <= i < s.len() && !('0' <= (#[trigger] s[i]) && s[i] <= '9') && !(i == 0 && s[i]
                == '+');
        if s[0] == '+' {
            assert(s.drop_first()[i - 1] == s[i]);
            assert(!is_digit(s.drop_first()[i - 1]));
        } else {
            assert(!is_digit(s[i]));
        }
    }
    if all_digits(s) && s.len() > 0 {
        assert((seq!['+'] + s).drop_first() =~= s);
        assert(is_digit(s[0]));
    }
}

} // verus!
