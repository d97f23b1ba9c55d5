//! Building text: decimal numerals and the few string operations the rest of
//! the library needs.

use vstd::prelude::*;
use vstd::string::*;

verus! {

/// The character that stands for the digit `d`.
pub open spec fn digit_char(d: int) -> char {
    if d == 0 {
        '0'
    } else if d == 1 {
        '1'
    } else if d == 2 {
        '2'
    } else if d == 3 {
        '3'
    } else if d == 4 {
        '4'
    } else if d == 5 {
        '5'
    } else if d == 6 {
        '6'
    } else if d == 7 {
        '7'
    } else if d == 8 {
        '8'
    } else {
        '9'
    }
}

/// The decimal numeral of `n`, without leading zeros; `0` is written "0".
pub open spec fn decimal(n: nat) -> Seq<char>
    decreases n,
{
    if n < 10 {
        seq![digit_char(n as int)]
    } else {
        decimal(n / 10).push(digit_char((n % 10) as int))
    }
}

/// Appends one character to `out`.
///
/// Trusted: `String::push` of the standard library, which adds the character
/// at the end and leaves what was there untouched.
#[verifier::external_body]
pub(crate) fn push_char(out: &mut String, c: char)
    ensures
        final(out)@ == old(out)@.push(c),
{
    out.push(c);
}

/// The character for a digit below ten.
pub(crate) fn digit_to_char(d: u8) -> (c: char)
    requires
        d < 10,
    ensures
        c == digit_char(d as int),
{
    if d == 0 {
        '0'
    } else if d == 1 {
        '1'
    } else if d == 2 {
        '2'
    } else if d == 3 {
        '3'
    } else if d == 4 {
        '4'
    } else if d == 5 {
        '5'
    } else if d == 6 {
        '6'
    } else if d == 7 {
        '7'
    } else if d == 8 {
        '8'
    } else {
        '9'
    }
}

/// Appends the decimal numeral of `n` to `out`.
pub fn push_decimal(out: &mut String, n: u64)
    ensures
        final(out)@ == old(out)@ + decimal(n as nat),
    decreases n,
{
    if n >= 10 {
        push_decimal(out, n / 10);
    }
    let d: u8 = (n % 10) as u8;
    push_char(out, digit_to_char(d));
    assert(final(out)@ =~= old(out)@ + decimal(n as nat));
}

/// Ten to the power `k`.
pub open spec fn pow10(k: nat) -> nat
    decreases k,
{
    if k == 0 {
        1
    } else {
        10 * pow10((k - 1) as nat)
    }
}

/// The last `width` decimal digits of `n`, with leading zeros.
pub open spec fn padded(n: nat, width: nat) -> Seq<char>
    decreases width,
{
    if width == 0 {
        Seq::empty()
    } else {
        padded(n / 10, (width - 1) as nat).push(digit_char((n % 10) as int))
    }
}

/// The numeral of `n` in at least `width` digits: zero-padded when `n` has
/// fewer, in full when it has more.
pub open spec fn at_least_padded(n: nat, width: nat) -> Seq<char> {
    if n < pow10(width) {
        padded(n, width)
    } else {
        decimal(n)
    }
}

/// A count of millionths rounded to `places` decimals, halves upwards. The
/// result counts units of the last decimal kept.
pub open spec fn rounded(value: nat, places: nat) -> nat
    recommends
        places <= 6,
{
    let unit = pow10((6 - places) as nat);
    (value + unit / 2) / unit
}

/// A count of millionths written with exactly `places` decimals.
pub open spec fn fixed_text(value: nat, places: nat) -> Seq<char>
    recommends
        places <= 6,
{
    let r = rounded(value, places);
    if places == 0 {
        decimal(r)
    } else {
        decimal(r / pow10(places)) + seq!['.'] + padded(r % pow10(places), places)
    }
}

/// A signed count of millionths written with exactly `places` decimals; a
/// negative count is written as a minus sign and its magnitude.
pub open spec fn signed_fixed_text(value: int, places: nat) -> Seq<char>
    recommends
        places <= 6,
{
    if value < 0 {
        seq!['-'] + fixed_text((-value) as nat, places)
    } else {
        fixed_text(value as nat, places)
    }
}

/// The first powers of ten, as far as the library needs them.
pub proof fn lemma_pow10_values()
    ensures
        pow10(0) == 1,
        pow10(1) == 10,
        pow10(2) == 100,
        pow10(3) == 1_000,
        pow10(4) == 10_000,
        pow10(5) == 100_000,
        pow10(6) == 1_000_000,
{
    reveal_with_fuel(pow10, 7);
}

/// Ten to the power `k`, for `k` up to six.
pub(crate) fn power_of_ten(k: u32) -> (p: u64)
    requires
        k <= 6,
    ensures
        p == pow10(k as nat),
{
    proof {
        lemma_pow10_values();
    }
    if k == 0 {
        1
    } else if k == 1 {
        10
    } else if k == 2 {
        100
    } else if k == 3 {
        1_000
    } else if k == 4 {
        10_000
    } else if k == 5 {
        100_000
    } else {
        1_000_000
    }
}

/// Appends the last `width` decimal digits of `n` to `out`, with leading zeros.
pub fn push_padded(out: &mut String, n: u64, width: u32)
    ensures
        final(out)@ == old(out)@ + padded(n as nat, width as nat),
    decreases width,
{
    if width > 0 {
        push_padded(out, n / 10, width - 1);
        let d: u8 = (n % 10) as u8;
        push_char(out, digit_to_char(d));
    }
    assert(final(out)@ =~= old(out)@ + padded(n as nat, width as nat));
}

/// Appends the numeral of `n` in at least four digits to `out`.
pub fn push_four_digits(out: &mut String, n: u64)
    ensures
        final(out)@ == old(out)@ + at_least_padded(n as nat, 4),
{
    proof {
        lemma_pow10_values();
    }
    if n < 10_000 {
        push_padded(out, n, 4);
    } else {
        push_decimal(out, n);
    }
}

/// Appends a count of millionths to `out`, written with `places` decimals.
pub fn push_fixed(out: &mut String, value: u64, places: u32)
    requires
        places <= 6,
    ensures
        final(out)@ == old(out)@ + fixed_text(value as nat, places as nat),
{
    proof {
        lemma_pow10_values();
    }
    let unit: u64 = power_of_ten(6 - places);
    let half: u64 = unit / 2;
    let scale: u64 = power_of_ten(places);
    assert(unit == 1 || unit == 10 || unit == 100 || unit == 1_000 || unit == 10_000 || unit
        == 100_000 || unit == 1_000_000);
    let wide: u128 = (value as u128 + half as u128) / (unit as u128);
    assert(wide <= value) by {
        if unit == 1 {
            assert(half == 0);
        } else {
            assert(half < unit);
            assert((value + half) / (unit as int) <= value) by (nonlinear_arith)
                requires
                    unit >= 2,
                    0 <= half < unit,
                    value >= 0,
            ;
        }
    }
    let r: u64 = wide as u64;
    assert(r == rounded(value as nat, places as nat));
    if places == 0 {
        push_decimal(out, r);
    } else {
        push_decimal(out, r / scale);
        push_char(out, '.');
        push_padded(out, r % scale, places);
    }
    assert(final(out)@ =~= old(out)@ + fixed_text(value as nat, places as nat));
}

/// The magnitude of a signed number.
pub fn magnitude(value: i64) -> (m: u64)
    ensures
        m == if value < 0 {
            -(value as int)
        } else {
            value as int
        },
{
    if value < 0 {
        if value == i64::MIN {
            9_223_372_036_854_775_808u64
        } else {
            (-value) as u64
        }
    } else {
        value as u64
    }
}

/// Appends a signed count of millionths to `out`, written with `places` decimals.
pub fn push_signed_fixed(out: &mut String, value: i64, places: u32)
    requires
        places <= 6,
    ensures
        final(out)@ == old(out)@ + signed_fixed_text(value as int, places as nat),
{
    if value < 0 {
        push_char(out, '-');
    }
    push_fixed(out, magnitude(value), places);
    assert(final(out)@ =~= old(out)@ + signed_fixed_text(value as int, places as nat));
}

/// The character that stands for the hexadecimal digit `d`, in lower case.
pub open spec fn hex_char(d: int) -> char {
    if d < 10 {
        digit_char(d)
    } else if d == 10 {
        'a'
    } else if d == 11 {
        'b'
    } else if d == 12 {
        'c'
    } else if d == 13 {
        'd'
    } else if d == 14 {
        'e'
    } else {
        'f'
    }
}

/// Whether a character is a control character below the space.
pub open spec fn is_control(c: char) -> bool {
    (c as u32) < 0x20
}

/// How one character is written between quotes: a quote, a backslash, a
/// line feed, a carriage return and a tab get a two-character escape, any
/// other control character is written as `\u00` and its two hexadecimal
/// digits, and every other character stands for itself.
pub open spec fn escaped_char(c: char) -> Seq<char> {
    if c == '"' {
        seq!['\\', '"']
    } else if c == '\\' {
        seq!['\\', '\\']
    } else if c == '\n' {
        seq!['\\', 'n']
    } else if c == '\r' {
        seq!['\\', 'r']
    } else if c == '\t' {
        seq!['\\', 't']
    } else if is_control(c) {
        seq!['\\', 'u', '0', '0', hex_char((c as u32) as int / 16), hex_char((c as u32) as int % 16)]
    } else {
        seq![c]
    }
}

/// A text as it is written between quotes, character by character.
pub open spec fn escaped(s: Seq<char>) -> Seq<char>
    decreases s.len(),
{
    if s.len() == 0 {
        Seq::empty()
    } else {
        escaped_char(s[0]) + escaped(s.drop_first())
    }
}

/// Escaping a text with one more character at its end adds that
/// character's escape at the end.
pub proof fn lemma_escaped_push(s: Seq<char>, c: char)
    ensures
        escaped(s.push(c)) == escaped(s) + escaped_char(c),
    decreases s.len(),
{
    if s.len() == 0 {
        assert(s.push(c).drop_first() =~= Seq::<char>::empty());
        assert(escaped(Seq::<char>::empty()) =~= Seq::<char>::empty());
        assert(escaped(s) =~= Seq::<char>::empty());
        assert(escaped(s.push(c)) =~= escaped_char(c) + escaped(s.push(c).drop_first()));
        assert(escaped(s.push(c)) =~= escaped(s) + escaped_char(c));
    } else {
        lemma_escaped_push(s.drop_first(), c);
        assert(s.push(c).drop_first() =~= s.drop_first().push(c));
        assert(escaped(s.push(c)) =~= escaped(s) + escaped_char(c));
    }
}

/// The character for a hexadecimal digit below sixteen.
pub(crate) fn hex_to_char(d: u8) -> (c: char)
    requires
        d < 16,
    ensures
        c == hex_char(d as int),
{
    if d < 10 {
        digit_to_char(d)
    } else if d == 10 {
        'a'
    } else if d == 11 {
        'b'
    } else if d == 12 {
        'c'
    } else if d == 13 {
        'd'
    } else if d == 14 {
        'e'
    } else {
        'f'
    }
}

/// Appends the escape of one character to `out`.
pub fn push_escaped_char(out: &mut String, c: char)
    ensures
        final(out)@ == old(out)@ + escaped_char(c),
{
    let code: u32 = c as u32;
    if c == '"' {
        push_char(out, '\\');
        push_char(out, '"');
    } else if c == '\\' {
        push_char(out, '\\');
        push_char(out, '\\');
    } else if c == '\n' {
        push_char(out, '\\');
        push_char(out, 'n');
    } else if c == '\r' {
        push_char(out, '\\');
        push_char(out, 'r');
    } else if c == '\t' {
        push_char(out, '\\');
        push_char(out, 't');
    } else if code < 0x20 {
        push_char(out, '\\');
        push_char(out, 'u');
        push_char(out, '0');
        push_char(out, '0');
        push_char(out, hex_to_char((code / 16) as u8));
        push_char(out, hex_to_char((code % 16) as u8));
    } else {
        push_char(out, c);
    }
    assert(final(out)@ =~= old(out)@ + escaped_char(c));
}

/// Appends the escaped form of `s` to `out`.
pub fn push_escaped(out: &mut String, s: &str)
    ensures
        final(out)@ == old(out)@ + escaped(s@),
{
    broadcast use axiom_spec_iter;

    let ghost start = out@;
    assert(escaped(s@.take(0)) =~= Seq::<char>::empty());
    for c in it: s.chars()
        invariant
            it.seq() == s@,
            out@ == start + escaped(s@.take(it.index() as int)),
    {
        let ghost i = it.index() as int;
        proof {
            lemma_escaped_push(s@.take(i), c);
            assert(s@.take(i + 1) =~= s@.take(i).push(c));
        }
        push_escaped_char(out, c);
        assert(out@ =~= start + escaped(s@.take(i + 1)));
    }
    assert(s@.take(s@.len() as int) =~= s@);
}

/// Appends `s` between quotes, escaped, to `out`.
pub fn push_quoted(out: &mut String, s: &str)
    ensures
        final(out)@ == old(out)@ + quoted(s@),
{
    push_char(out, '"');
    push_escaped(out, s);
    push_char(out, '"');
    assert(final(out)@ =~= old(out)@ + quoted(s@));
}

/// A text between quotes, escaped.
pub open spec fn quoted(s: Seq<char>) -> Seq<char> {
    seq!['"'] + escaped(s) + seq!['"']
}

} // verus!
