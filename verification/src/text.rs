//! Decimal and hexadecimal text, whitespace, and number parsing.

use vstd::prelude::*;

verus! {

/// `String::push` appends the given character to the end of the string.
pub assume_specification[ String::push ](s: &mut String, c: char)
    ensures
        final(s)@ == old(s)@.push(c),
;

/// The character of a decimal digit.
pub open spec fn digit_char(d: nat) -> char {
    (48 + d) as char
}

/// `n` in decimal, without leading zeros.
pub open spec fn decimal(n: nat) -> Seq<char>
    decreases n,
{
    if n < 10 {
        seq![digit_char(n)]
    } else {
        decimal(n / 10).push(digit_char(n % 10))
    }
}

/// `n` in decimal, with a minus sign in front of a negative number.
pub open spec fn signed_decimal(n: int) -> Seq<char> {
    if n < 0 {
        seq!['-'] + decimal((-n) as nat)
    } else {
        decimal(n as nat)
    }
}

/// `n` in decimal, with a zero in front of a single digit.
pub open spec fn two_digits(n: nat) -> Seq<char> {
    if n < 10 {
        seq!['0'] + decimal(n)
    } else {
        decimal(n)
    }
}

/// Appends `n` in decimal.
pub fn push_decimal(s: &mut String, n: u64)
    ensures
        final(s)@ == old(s)@ + decimal(n as nat),
    decreases n,
{
    if n >= 10 {
        push_decimal(s, n / 10);
    }
    s.push((48u8 + (n % 10) as u8) as char);
}

/// Appends `n` in decimal, with its sign if it is negative.
pub fn push_signed(s: &mut String, n: i32)
    ensures
        final(s)@ == old(s)@ + signed_decimal(n as int),
{
    if n < 0 {
        s.push('-');
        push_decimal(s, (-(n as i64)) as u64);
        assert(s@ =~= old(s)@ + signed_decimal(n as int));
    } else {
        push_decimal(s, n as u64);
    }
}

/// Appends `n` in decimal, padded to two digits.
pub fn push_two_digits(s: &mut String, n: u32)
    ensures
        final(s)@ == old(s)@ + two_digits(n as nat),
{
    if n < 10 {
        s.push('0');
    }
    push_decimal(s, n as u64);
    assert(s@ =~= old(s)@ + two_digits(n as nat));
}

/// The text of `n` in decimal.
pub fn decimal_string(n: u64) -> (s: String)
    ensures
        s@ == decimal(n as nat),
{
    let mut s = String::new();
    push_decimal(&mut s, n);
    assert(s@ =~= decimal(n as nat));
    s
}

/// The number that a run of decimal digits writes.
pub open spec fn digits_value(digits: Seq<u8>) -> nat
    decreases digits.len(),
{
    if digits.len() == 0 {
        0
    } else {
        digits_value(digits.drop_last()) * 10 + (digits.last() - 48) as nat
    }
}

/// A non-empty run of decimal digits.
pub open spec fn is_digits(s: Seq<u8>) -> bool {
    s.len() > 0 && forall|i: int| 0 <= i < s.len() ==> 48 <= #[trigger] s[i] <= 57
}

/// `s` without one leading plus sign.
pub open spec fn unsigned_part(s: Seq<u8>) -> Seq<u8> {
    if s.len() > 0 && s[0] == 43 {
        s.skip(1)
    } else {
        s
    }
}

/// The `u32` that `s` writes: an optional plus sign and decimal digits, no larger than `u32::MAX`.
pub open spec fn parsed_u32(s: Seq<u8>) -> Option<u32> {
    let digits = unsigned_part(s);
    if is_digits(digits) && digits_value(digits) <= u32::MAX {
        Some(digits_value(digits) as u32)
    } else {
        None
    }
}

proof fn lemma_digits_value_monotone(digits: Seq<u8>, n: int)
    requires
        is_digits(digits),
        0 <= n <= digits.len(),
    ensures
        digits_value(digits.take(n)) <= digits_value(digits),
    decreases digits.len() - n,
{
    if n < digits.len() {
        lemma_digits_value_monotone(digits, n + 1);
        assert(digits.take(n + 1).drop_last() =~= digits.take(n));
    } else {
        assert(digits.take(n) =~= digits);
    }
}

/// Parses an unsigned number as `u32`, or gives `None` where the text is no such number.
pub fn parse_u32(s: &Vec<u8>) -> (r: Option<u32>)
    ensures
        r == parsed_u32(s@),
{
    let start: usize = if s.len() > 0 && s[0] == 43 {
        1
    } else {
        0
    };
    let ghost digits = unsigned_part(s@);
    assert(digits =~= s@.skip(start as int));
    if s.len() == start {
        return None;
    }
    let mut value: u64 = 0;
    let mut i: usize = start;
    while i < s.len()
        invariant
            start <= i <= s.len(),
            start <= 1,
            digits == unsigned_part(s@),
            digits =~= s@.skip(start as int),
            digits.len() > 0,
            value == digits_value(digits.take(i - start)),
            value <= u32::MAX,
            forall|j: int| 0 <= j < i - start ==> 48 <= #[trigger] digits[j] <= 57,
        decreases s.len() - i,
    {
        let c = s[i];
        assert(digits[i - start] == c);
        if c < 48 || c > 57 {
            return None;
        }
        assert(digits.take(i - start + 1).drop_last() =~= digits.take(i - start));
        value = value * 10 + (c - 48) as u64;
        if value > 0xffff_ffff {
            proof {
                if is_digits(digits) {
                    lemma_digits_value_monotone(digits, i - start + 1);
                }
            }
            return None;
        }
        i = i + 1;
    }
    assert(digits.take(i - start) =~= digits);
    Some(value as u32)
}

/// The lower-case hexadecimal digit of a value below 16.
pub open spec fn hex_char(d: nat) -> char {
    if d < 10 {
        (48 + d) as char
    } else {
        (87 + d) as char
    }
}

/// Each byte as two lower-case hexadecimal digits.
pub open spec fn lower_hex(bytes: Seq<u8>) -> Seq<char>
    decreases bytes.len(),
{
    if bytes.len() == 0 {
        seq![]
    } else {
        lower_hex(bytes.drop_last()) + seq![
            hex_char(bytes.last() as nat / 16),
            hex_char(bytes.last() as nat % 16),
        ]
    }
}

fn hex_digit(d: u8) -> (c: char)
    requires
        d < 16,
    ensures
        c == hex_char(d as nat),
{
    if d < 10 {
        (48 + d) as char
    } else {
        (87 + d) as char
    }
}

/// Writes each byte as two lower-case hexadecimal digits.
pub fn hex_string(bytes: &Vec<u8>) -> (s: String)
    ensures
        s@ == lower_hex(bytes@),
{
    let mut s = String::new();
    let mut i: usize = 0;
    assert(bytes@.take(0) =~= Seq::<u8>::empty());
    assert(s@ =~= lower_hex(bytes@.take(0)));
    while i < bytes.len()
        invariant
            i <= bytes.len(),
            s@ == lower_hex(bytes@.take(i as int)),
        decreases bytes.len() - i,
    {
        let b = bytes[i];
        let ghost before = s@;
        s.push(hex_digit(b / 16));
        s.push(hex_digit(b % 16));
        i = i + 1;
        assert(bytes@.take(i as int).drop_last() =~= bytes@.take(i - 1));
        assert(s@ =~= before + seq![hex_char(b as nat / 16), hex_char(b as nat % 16)]);
    }
    assert(bytes@.take(i as int) =~= bytes@);
    s
}

/// The characters with the Unicode property `White_Space`.
#[verifier::opaque]
pub open spec fn is_space(c: char) -> bool {
    ||| '\u{9}' <= c <= '\u{d}'
    ||| c == ' '
    ||| c == '\u{85}'
    ||| c == '\u{a0}'
    ||| c == '\u{1680}'
    ||| '\u{2000}' <= c <= '\u{200a}'
    ||| c == '\u{2028}'
    ||| c == '\u{2029}'
    ||| c == '\u{202f}'
    ||| c == '\u{205f}'
    ||| c == '\u{3000}'
}

/// Tells whether a character has the Unicode property `White_Space`.
pub fn whitespace(c: char) -> (r: bool)
    ensures
        r == is_space(c),
{
    reveal(is_space);
    ('\u{9}' <= c && c <= '\u{d}') || c == ' ' || c == '\u{85}' || c == '\u{a0}' || c == '\u{1680}'
        || ('\u{2000}' <= c && c <= '\u{200a}') || c == '\u{2028}' || c == '\u{2029}' || c
        == '\u{202f}' || c == '\u{205f}' || c == '\u{3000}'
}

/// `s` without the whitespace at its two ends.
pub open spec fn trimmed(s: Seq<char>) -> Seq<char>
    decreases s.len(),
{
    if s.len() == 0 {
        s
    } else if is_space(s.first()) {
        trimmed(s.drop_first())
    } else if is_space(s.last()) {
        trimmed(s.drop_last())
    } else {
        s
    }
}

/// The characters of a string.
pub fn chars_of(s: &str) -> (v: Vec<char>)
    ensures
        v@ == s@,
{
    let mut v: Vec<char> = Vec::new();
    for c in it: s.chars()
        invariant
            v@ == it.seq().take(it.index()),
            it.seq() == s@,
    {
        v.push(c);
    }
    v
}

/// The string of the given characters.
pub fn string_of(v: &Vec<char>) -> (s: String)
    ensures
        s@ == v@,
{
    let mut s = String::new();
    let mut i: usize = 0;
    while i < v.len()
        invariant
            i <= v.len(),
            s@ =~= v@.take(i as int),
        decreases v.len() - i,
    {
        s.push(v[i]);
        i = i + 1;
    }
    assert(v@.take(i as int) =~= v@);
    s
}

/// Drops the whitespace at the two ends.
pub fn trim(v: &Vec<char>) -> (r: Vec<char>)
    ensures
        r@ == trimmed(v@),
{
    let mut start: usize = 0;
    let mut end: usize = v.len();
    assert(v@.subrange(0, end as int) =~= v@);
    while start < end && whitespace(v[start])
        invariant
            start <= end <= v.len(),
            trimmed(v@.subrange(start as int, end as int)) == trimmed(v@),
        decreases end - start,
    {
        let ghost s = v@.subrange(start as int, end as int);
        start = start + 1;
        assert(s.drop_first() =~= v@.subrange(start as int, end as int));
    }
    while start < end && whitespace(v[end - 1])
        invariant
            start <= end <= v.len(),
            start < end ==> !is_space(v@[start as int]),
            trimmed(v@.subrange(start as int, end as int)) == trimmed(v@),
        decreases end - start,
    {
        let ghost s = v@.subrange(start as int, end as int);
        end = end - 1;
        assert(s.drop_last() =~= v@.subrange(start as int, end as int));
    }
    let mut r: Vec<char> = Vec::new();
    let mut i: usize = start;
    while i < end
        invariant
            start <= i <= end <= v.len(),
            r@ =~= v@.subrange(start as int, i as int),
        decreases end - i,
    {
        r.push(v[i]);
        i = i + 1;
    }
    r
}

/// The decimal text of a number has digits only, and more than one exactly from ten on.
proof fn lemma_decimal_digits(n: nat)
    ensures
        decimal(n).len() > 0,
        decimal(n).len() > 1 <==> n >= 10,
        forall|i: int| 0 <= i < decimal(n).len() ==> '0' <= #[trigger] decimal(n)[i] <= '9',
    decreases n,
{
    if n >= 10 {
        lemma_decimal_digits(n / 10);
    }
}

/// Different numbers have different decimal texts.
pub proof fn law_decimal_is_injective(a: nat, b: nat)
    requires
        decimal(a) == decimal(b),
    ensures
        a == b,
    decreases a,
{
    lemma_decimal_digits(a);
    lemma_decimal_digits(b);
    if a < 10 {
        assert(decimal(a)[0] == digit_char(a));
        assert(decimal(b)[0] == digit_char(b));
    } else {
        assert(decimal(a).last() == digit_char(a % 10));
        assert(decimal(b).last() == digit_char(b % 10));
        assert(decimal(a).drop_last() =~= decimal(a / 10));
        assert(decimal(b).drop_last() =~= decimal(b / 10));
        law_decimal_is_injective(a / 10, b / 10);
    }
}

/// Different numbers have different signed decimal texts.
pub proof fn law_signed_decimal_is_injective(a: int, b: int)
    requires
        signed_decimal(a) == signed_decimal(b),
    ensures
        a == b,
{
    if a < 0 {
        lemma_decimal_digits((-a) as nat);
        assert(signed_decimal(a)[0] == '-');
        assert(signed_decimal(a).drop_first() =~= decimal((-a) as nat));
    } else {
        lemma_decimal_digits(a as nat);
        assert(signed_decimal(a)[0] != '-');
    }
    if b < 0 {
        lemma_decimal_digits((-b) as nat);
        assert(signed_decimal(b)[0] == '-');
        assert(signed_decimal(b).drop_first() =~= decimal((-b) as nat));
    } else {
        lemma_decimal_digits(b as nat);
        assert(signed_decimal(b)[0] != '-');
    }
    if a < 0 {
        law_decimal_is_injective((-a) as nat, (-b) as nat);
    } else {
        law_decimal_is_injective(a as nat, b as nat);
    }
}

/// A number below a hundred is padded to two characters, each number to other ones.
pub proof fn law_two_digits_are_injective(a: nat, b: nat)
    requires
        a < 100,
        b < 100,
    ensures
        two_digits(a).len() == 2,
        two_digits(a) == two_digits(b) ==> a == b,
{
    reveal_with_fuel(decimal, 3);
    if two_digits(a) == two_digits(b) {
        assert(two_digits(a)[0] == two_digits(b)[0]);
        assert(two_digits(a)[1] == two_digits(b)[1]);
        assert(two_digits(a)[0] == digit_char(a / 10));
        assert(two_digits(b)[0] == digit_char(b / 10));
        assert(two_digits(a)[1] == digit_char(a % 10));
        assert(two_digits(b)[1] == digit_char(b % 10));
    }
}

/// The bytes of a text of ASCII characters.
pub open spec fn ascii_bytes(s: Seq<char>) -> Seq<u8> {
    s.map_values(|c: char| c as u8)
}

proof fn lemma_digits_value_of_decimal(n: nat)
    ensures
        digits_value(ascii_bytes(decimal(n))) == n,
        is_digits(ascii_bytes(decimal(n))),
    decreases n,
{
    lemma_decimal_digits(n);
    let bytes = ascii_bytes(decimal(n));
    if n >= 10 {
        lemma_digits_value_of_decimal(n / 10);
        assert(bytes.drop_last() =~= ascii_bytes(decimal(n / 10)));
        assert(bytes.last() == 48 + n % 10);
        assert(digits_value(bytes) == (n / 10) * 10 + n % 10);
    } else {
        assert(bytes.drop_last() =~= Seq::<u8>::empty());
        assert(bytes.last() == 48 + n);
        assert(digits_value(bytes.drop_last()) == 0);
        assert(digits_value(bytes) == n);
    }
}

/// Parsing the decimal text of a number gives the number back.
pub proof fn law_decimal_parses_back(n: u32)
    ensures
        parsed_u32(ascii_bytes(decimal(n as nat))) == Some(n),
{
    lemma_digits_value_of_decimal(n as nat);
    lemma_decimal_digits(n as nat);
    assert(ascii_bytes(decimal(n as nat))[0] != 43);
}

/// Different bytes have different hexadecimal texts, of two characters for each byte.
pub proof fn law_hex_is_injective(a: Seq<u8>, b: Seq<u8>)
    ensures
        lower_hex(a).len() == 2 * a.len(),
        lower_hex(a) == lower_hex(b) ==> a == b,
    decreases a.len(),
{
    lemma_hex_len(a);
    lemma_hex_len(b);
    if lower_hex(a) == lower_hex(b) && a.len() > 0 {
        let n = lower_hex(a).len() as int;
        let x = a.last();
        let y = b.last();
        lemma_hex_len(a.drop_last());
        lemma_hex_len(b.drop_last());
        assert(lower_hex(a)[n - 1] == hex_char(x as nat % 16));
        assert(lower_hex(b)[n - 1] == hex_char(y as nat % 16));
        assert(lower_hex(a)[n - 2] == hex_char(x as nat / 16));
        assert(lower_hex(b)[n - 2] == hex_char(y as nat / 16));
        assert(x == y);
        assert(lower_hex(a).take(n - 2) =~= lower_hex(a.drop_last()));
        assert(lower_hex(b).take(n - 2) =~= lower_hex(b.drop_last()));
        law_hex_is_injective(a.drop_last(), b.drop_last());
        assert(a =~= a.drop_last().push(x));
        assert(b =~= b.drop_last().push(y));
    }
}

proof fn lemma_hex_len(a: Seq<u8>)
    ensures
        lower_hex(a).len() == 2 * a.len(),
    decreases a.len(),
{
    if a.len() > 0 {
        lemma_hex_len(a.drop_last());
    }
}

/// The decimal text of a number is the one that place value gives: digits only, no zero in front
/// of others, and each digit worth ten times what the same digit is worth one place further on.
pub proof fn law_decimal_has_the_value(n: nat)
    ensures
        decimal(n).len() > 0,
        forall|i: int| 0 <= i < decimal(n).len() ==> '0' <= #[trigger] decimal(n)[i] <= '9',
        decimal(n)[0] == '0' ==> n == 0 && decimal(n).len() == 1,
        decimal(n).fold_left(0int, |v: int, c: char| v * 10 + (c as int - 48)) == n,
    decreases n,
{
    lemma_decimal_digits(n);
    let d = decimal(n);
    if n >= 10 {
        law_decimal_has_the_value(n / 10);
        assert(d.drop_last() =~= decimal(n / 10));
        assert(d[0] == decimal(n / 10)[0]);
    } else {
        reveal_with_fuel(Seq::fold_left, 2);
        assert(d.drop_last() =~= Seq::<char>::empty());
    }
}

/// A negative number has a minus sign and the text of its amount, another number has no sign.
pub proof fn law_signed_decimal_has_the_value(n: nat)
    ensures
        signed_decimal(n as int) == decimal(n),
        n > 0 ==> signed_decimal(-(n as int)) == seq!['-'] + decimal(n),
{
}

/// A number below a hundred is written with two digits, any other one as it is.
pub proof fn law_two_digits_have_the_value(n: nat)
    ensures
        n < 100 ==> two_digits(n).len() == 2 && two_digits(n)[0] as int == 48 + n / 10
            && two_digits(n)[1] as int == 48 + n % 10,
        n >= 100 ==> two_digits(n) == decimal(n),
{
    reveal_with_fuel(decimal, 3);
}

/// A text is parsed if, after one plus sign at most, it has decimal digits and nothing else, at
/// least one of them, and their value fits; what comes out is that value.
pub proof fn law_parsed_value(digits: Seq<u8>)
    ensures
        ({
            let value = digits.fold_left(0int, |v: int, b: u8| v * 10 + (b - 48));
            let sound = digits.len() > 0 && forall|i: int|
                0 <= i < digits.len() ==> 48 <= #[trigger] digits[i] <= 57;
            &&& parsed_u32(seq![43u8] + digits) is Some <==> sound && value <= 0xffff_ffff
            &&& parsed_u32(seq![43u8] + digits) matches Some(n) ==> n == value
            &&& digits.len() == 0 ==> parsed_u32(digits) is None
            &&& digits.len() > 0 && digits[0] != 43 ==> parsed_u32(digits) == parsed_u32(
                seq![43u8] + digits,
            )
        }),
{
    lemma_digits_value_by_place(digits);
    assert((seq![43u8] + digits).skip(1) =~= digits);
}

proof fn lemma_digits_value_by_place(digits: Seq<u8>)
    ensures
        is_digits(digits) ==> digits_value(digits) == digits.fold_left(
            0int,
            |v: int, b: u8| v * 10 + (b - 48),
        ),
    decreases digits.len(),
{
    if is_digits(digits) {
        let rest = digits.drop_last();
        if rest.len() > 0 {
            assert(is_digits(rest)) by {
                assert forall|i: int| 0 <= i < rest.len() implies 48 <= #[trigger] rest[i] <= 57 by {
                    assert(rest[i] == digits[i]);
                }
            }
            lemma_digits_value_by_place(rest);
        }
        reveal_with_fuel(Seq::fold_left, 2);
        reveal_with_fuel(digits_value, 2);
    }
}

/// The two characters of a byte in hexadecimal are digits or letters from `a` to `f`, the first
/// worth sixteen times what the second is worth.
pub proof fn law_hex_has_the_value(bytes: Seq<u8>, i: int)
    requires
        0 <= i < bytes.len(),
    ensures
        lower_hex(bytes).len() == 2 * bytes.len(),
        ({
            let high = lower_hex(bytes)[2 * i];
            let low = lower_hex(bytes)[2 * i + 1];
            &&& '0' <= high <= '9' || 'a' <= high <= 'f'
            &&& '0' <= low <= '9' || 'a' <= low <= 'f'
            &&& bytes[i] == 16 * (if high <= '9' {
                high as int - 48
            } else {
                high as int - 87
            }) + (if low <= '9' {
                low as int - 48
            } else {
                low as int - 87
            })
        }),
    decreases bytes.len(),
{
    lemma_hex_len(bytes);
    let rest = bytes.drop_last();
    lemma_hex_len(rest);
    if i < rest.len() {
        law_hex_has_the_value(rest, i);
        assert(lower_hex(bytes)[2 * i] == lower_hex(rest)[2 * i]);
        assert(lower_hex(bytes)[2 * i + 1] == lower_hex(rest)[2 * i + 1]);
    } else {
        let b = bytes.last() as nat;
        assert(lower_hex(bytes)[2 * i] == hex_char(b / 16));
        assert(lower_hex(bytes)[2 * i + 1] == hex_char(b % 16));
    }
}

/// Whitespace is what Unicode counts as such, by code point.
pub proof fn law_whitespace_by_code_point(c: char)
    ensures
        is_space(c) <==> {
            ||| 9 <= c as u32 <= 13
            ||| c as u32 == 32
            ||| c as u32 == 133
            ||| c as u32 == 160
            ||| c as u32 == 5760
            ||| 8192 <= c as u32 <= 8202
            ||| c as u32 == 8232
            ||| c as u32 == 8233
            ||| c as u32 == 8239
            ||| c as u32 == 8287
            ||| c as u32 == 12288
        },
{
    reveal(is_space);
}

/// Whitespace around a text that has none at its ends is dropped, and nothing else.
pub proof fn law_trim_drops_what_is_around(before: Seq<char>, text: Seq<char>, behind: Seq<char>)
    requires
        forall|i: int| 0 <= i < before.len() ==> is_space(#[trigger] before[i]),
        forall|i: int| 0 <= i < behind.len() ==> is_space(#[trigger] behind[i]),
        text.len() > 0 ==> !is_space(text.first()) && !is_space(text.last()),
    ensures
        trimmed(before + text + behind) == text,
    decreases before.len() + behind.len(),
{
    let all = before + text + behind;
    if before.len() > 0 {
        let rest = before.drop_first();
        assert forall|i: int| 0 <= i < rest.len() implies is_space(#[trigger] rest[i]) by {
            assert(rest[i] == before[i + 1]);
        }
        assert(all.first() == before[0]);
        assert(all.drop_first() =~= rest + text + behind);
        law_trim_drops_what_is_around(rest, text, behind);
    } else if behind.len() > 0 {
        let rest = behind.drop_last();
        assert forall|i: int| 0 <= i < rest.len() implies is_space(#[trigger] rest[i]) by {
            assert(rest[i] == behind[i]);
        }
        if text.len() > 0 {
            assert(all.first() == text[0]);
            assert(all.last() == behind[behind.len() - 1]);
            assert(all.drop_last() =~= before + text + rest);
            law_trim_drops_what_is_around(before, text, rest);
        } else {
            let fewer = behind.drop_first();
            assert forall|i: int| 0 <= i < fewer.len() implies is_space(#[trigger] fewer[i]) by {
                assert(fewer[i] == behind[i + 1]);
            }
            assert(all.first() == behind[0]);
            assert(all.drop_first() =~= before + text + fewer);
            law_trim_drops_what_is_around(before, text, fewer);
        }
    } else {
        assert(all =~= text);
    }
}

/// Every text is one that has no whitespace at its ends with whitespace around it, so that trimming
/// leaves nothing to trim.
pub proof fn law_trimmed_has_clean_ends(s: Seq<char>) -> (r: (Seq<char>, Seq<char>))
    ensures
        s == r.0 + trimmed(s) + r.1,
        forall|i: int| 0 <= i < r.0.len() ==> is_space(#[trigger] r.0[i]),
        forall|i: int| 0 <= i < r.1.len() ==> is_space(#[trigger] r.1[i]),
        trimmed(s).len() > 0 ==> !is_space(trimmed(s).first()) && !is_space(trimmed(s).last()),
    decreases s.len(),
{
    let none = Seq::<char>::empty();
    if s.len() == 0 {
        assert(s =~= none + trimmed(s) + none);
        (none, none)
    } else if is_space(s.first()) {
        let r = law_trimmed_has_clean_ends(s.drop_first());
        let before = seq![s.first()] + r.0;
        assert(s =~= before + trimmed(s) + r.1) by {
            assert(s =~= seq![s.first()] + s.drop_first());
        }
        assert forall|i: int| 0 <= i < before.len() implies is_space(#[trigger] before[i]) by {
            if i > 0 {
                assert(before[i] == r.0[i - 1]);
            }
        }
        (before, r.1)
    } else if is_space(s.last()) {
        let r = law_trimmed_has_clean_ends(s.drop_last());
        let behind = r.1.push(s.last());
        assert(s =~= r.0 + trimmed(s) + behind) by {
            assert(s =~= s.drop_last().push(s.last()));
        }
        assert forall|i: int| 0 <= i < behind.len() implies is_space(#[trigger] behind[i]) by {
            if i < r.1.len() {
                assert(behind[i] == r.1[i]);
            }
        }
        (r.0, behind)
    } else {
        assert(s =~= none + trimmed(s) + none);
        (none, none)
    }
}

} // verus!
