//! Reading text back: literals, decimal numerals and quoted texts at a
//! position of an input, each with the proof that it reads what the
//! writers of `text` wrote.

use vstd::prelude::*;
use vstd::string::*;
use crate::text::{
    decimal, digit_char, escaped, escaped_char, fixed_text, hex_char,
    lemma_pow10_values, padded, pow10, push_char, quoted, rounded, signed_fixed_text,
};

verus! {

/// Whether `lit` stands in `input` at position `pos`.
pub open spec fn has_at(input: Seq<char>, pos: int, lit: Seq<char>) -> bool {
    &&& 0 <= pos
    &&& pos + lit.len() <= input.len()
    &&& input.subrange(pos, pos + lit.len()) == lit
}

/// A text that stands at a position stands there piece by piece.
pub proof fn lemma_has_at_split(input: Seq<char>, pos: int, head: Seq<char>, tail: Seq<char>)
    requires
        has_at(input, pos, head + tail),
    ensures
        has_at(input, pos, head),
        has_at(input, pos + head.len(), tail),
{
    let whole = head + tail;
    assert(input.subrange(pos, pos + head.len()) =~= whole.subrange(0, head.len() as int));
    assert(whole.subrange(0, head.len() as int) =~= head);
    assert(input.subrange(pos + head.len(), pos + head.len() + tail.len()) =~= whole.subrange(
        head.len() as int,
        whole.len() as int,
    ));
    assert(whole.subrange(head.len() as int, whole.len() as int) =~= tail);
}

/// The character at a position where a text stands.
pub proof fn lemma_has_at_index(input: Seq<char>, pos: int, lit: Seq<char>, k: int)
    requires
        has_at(input, pos, lit),
        0 <= k < lit.len(),
    ensures
        input[pos + k] == lit[k],
{
    assert(input.subrange(pos, pos + lit.len())[k] == input[pos + k]);
}

/// The characters of a text, in order.
pub fn chars_of(s: &str) -> (chars: Vec<char>)
    ensures
        chars@ == s@,
{
    broadcast use axiom_spec_iter;

    let mut chars: Vec<char> = Vec::new();
    for c in it: s.chars()
        invariant
            it.seq() == s@,
            chars@ == s@.take(it.index() as int),
    {
        chars.push(c);
        assert(chars@ =~= s@.take(it.index() + 1));
    }
    assert(s@.take(s@.len() as int) =~= s@);
    chars
}

/// Reads the literal `lit` at `pos`: the position after it, or nothing
/// where it does not stand there.
pub fn expect(input: &Vec<char>, pos: usize, lit: &str) -> (next: Option<usize>)
    ensures
        match next {
            Some(p) => has_at(input@, pos as int, lit@) && p == pos + lit@.len(),
            None => !has_at(input@, pos as int, lit@),
        },
{
    broadcast use axiom_spec_iter;

    if pos > input.len() {
        return None;
    }
    let mut at: usize = pos;
    assert(input@.subrange(pos as int, at as int) =~= lit@.take(0));
    for c in it: lit.chars()
        invariant
            it.seq() == lit@,
            at == pos + it.index(),
            at <= input@.len(),
            input@.subrange(pos as int, at as int) == lit@.take(it.index() as int),
    {
        let ghost i = it.index() as int;
        if at >= input.len() {
            return None;
        }
        if input[at] != c {
            assert(!has_at(input@, pos as int, lit@)) by {
                if has_at(input@, pos as int, lit@) {
                    lemma_has_at_index(input@, pos as int, lit@, i);
                }
            }
            return None;
        }
        at += 1;
        assert(input@.subrange(pos as int, at as int) =~= lit@.take(i + 1));
    }
    assert(lit@.take(lit@.len() as int) =~= lit@);
    Some(at)
}

/// The digit that a character stands for.
pub open spec fn digit_of(c: char) -> Option<int> {
    if c == '0' {
        Some(0)
    } else if c == '1' {
        Some(1)
    } else if c == '2' {
        Some(2)
    } else if c == '3' {
        Some(3)
    } else if c == '4' {
        Some(4)
    } else if c == '5' {
        Some(5)
    } else if c == '6' {
        Some(6)
    } else if c == '7' {
        Some(7)
    } else if c == '8' {
        Some(8)
    } else if c == '9' {
        Some(9)
    } else {
        None
    }
}

/// The digit that a character stands for.
pub fn digit_value(c: char) -> (d: Option<u8>)
    ensures
        match d {
            Some(v) => digit_of(c) == Some(v as int) && v < 10,
            None => digit_of(c) is None,
        },
{
    if c == '0' {
        Some(0)
    } else if c == '1' {
        Some(1)
    } else if c == '2' {
        Some(2)
    } else if c == '3' {
        Some(3)
    } else if c == '4' {
        Some(4)
    } else if c == '5' {
        Some(5)
    } else if c == '6' {
        Some(6)
    } else if c == '7' {
        Some(7)
    } else if c == '8' {
        Some(8)
    } else if c == '9' {
        Some(9)
    } else {
        None
    }
}

/// What a run of digits amounts to.
pub ghost struct DigitRun {
    /// The number read so far.
    pub value: nat,
    /// How many digits were read.
    pub count: nat,
    /// The position after the last digit read.
    pub end: int,
}

/// Reads digits from `pos` on, at most until `count` reaches `limit`,
/// continuing the number `value`.
pub open spec fn scan_digits(input: Seq<char>, pos: int, value: nat, count: nat, limit: nat) -> DigitRun
    decreases input.len() - pos,
{
    if 0 <= pos < input.len() && count < limit && digit_of(input[pos]) is Some {
        scan_digits(
            input,
            pos + 1,
            value * 10 + digit_of(input[pos])->0 as nat,
            count + 1,
            limit,
        )
    } else {
        DigitRun { value, count, end: pos }
    }
}

/// Reads at most `limit` digits from `pos` on, for `limit` up to twenty.
pub(crate) fn read_digits(input: &Vec<char>, pos: usize, limit: u8) -> (run: (u128, u8, usize))
    requires
        pos <= input@.len(),
        limit <= 20,
    ensures
        scan_digits(input@, pos as int, 0, 0, limit as nat) == (DigitRun {
            value: run.0 as nat,
            count: run.1 as nat,
            end: run.2 as int,
        }),
        pos <= run.2 <= input@.len(),
        run.1 <= limit,
        run.2 == pos + run.1,
{
    let mut value: u128 = 0;
    let mut count: u8 = 0;
    let mut at: usize = pos;
    proof {
        lemma_pow10_bound();
    }
    while at < input.len() && count < limit
        invariant
            pos <= at <= input@.len(),
            count <= limit <= 20,
            at == pos + count,
            value < pow10(count as nat),
            pow10(20) == 100_000_000_000_000_000_000,
            scan_digits(input@, pos as int, 0, 0, limit as nat) == scan_digits(
                input@,
                at as int,
                value as nat,
                count as nat,
                limit as nat,
            ),
        decreases input@.len() - at,
    {
        match digit_value(input[at]) {
            Some(d) => {
                proof {
                    lemma_pow10_monotonic((count + 1) as nat, 20);
                }
                value = value * 10 + (d as u128);
                count += 1;
                at += 1;
            },
            None => {
                return (value, count, at);
            },
        }
    }
    (value, count, at)
}

/// Ten to the twentieth.
pub proof fn lemma_pow10_bound()
    ensures
        pow10(20) == 100_000_000_000_000_000_000,
{
    reveal_with_fuel(pow10, 21);
}

/// Powers of ten grow with the exponent.
pub proof fn lemma_pow10_monotonic(a: nat, b: nat)
    requires
        a <= b,
    ensures
        pow10(a) <= pow10(b),
        pow10(a) >= 1,
    decreases b,
{
    if a < b {
        lemma_pow10_monotonic(a, (b - 1) as nat);
    } else if a > 0 {
        lemma_pow10_monotonic((a - 1) as nat, (b - 1) as nat);
    }
}

/// Whether every character is a digit.
pub open spec fn all_digits(s: Seq<char>) -> bool {
    forall|i: int| 0 <= i < s.len() ==> digit_of(#[trigger] s[i]) is Some
}

/// The number that `value` becomes when the digits of `s` are added at
/// its end.
pub open spec fn fold_digits(s: Seq<char>, value: nat) -> nat
    decreases s.len(),
{
    if s.len() == 0 {
        value
    } else {
        fold_digits(s.drop_first(), value * 10 + digit_of(s[0])->0 as nat)
    }
}

/// One more digit at the end multiplies by ten and adds the digit.
pub proof fn lemma_fold_push(s: Seq<char>, c: char, value: nat)
    ensures
        fold_digits(s.push(c), value) == fold_digits(s, value) * 10 + digit_of(c)->0 as nat,
    decreases s.len(),
{
    if s.len() == 0 {
        assert(s.push(c).drop_first() =~= Seq::<char>::empty());
        assert(fold_digits(s.push(c).drop_first(), value * 10 + digit_of(c)->0 as nat) == value
            * 10 + digit_of(c)->0 as nat);
    } else {
        assert(s.push(c).drop_first() =~= s.drop_first().push(c));
        lemma_fold_push(s.drop_first(), c, value * 10 + digit_of(s[0])->0 as nat);
    }
}

/// The character of a digit stands for that digit.
pub proof fn lemma_digit_char_round_trip(d: int)
    requires
        0 <= d <= 9,
    ensures
        digit_of(digit_char(d)) == Some(d),
{
}

/// The numeral of `n` is made of digits, reads back as `n`, and has at
/// most `k` of them where `n` is below ten to the `k`.
pub proof fn lemma_decimal_reads_back(n: nat, k: nat)
    requires
        k >= 1,
        n < pow10(k),
    ensures
        all_digits(decimal(n)),
        fold_digits(decimal(n), 0) == n,
        1 <= decimal(n).len() <= k,
    decreases n,
{
    let d = (n % 10) as int;
    lemma_digit_char_round_trip(d);
    if n < 10 {
        let s = Seq::<char>::empty();
        assert(decimal(n) =~= s.push(digit_char(d)));
        lemma_fold_push(s, digit_char(d), 0);
    } else {
        assert(k >= 2) by {
            if k == 1 {
                reveal_with_fuel(pow10, 2);
            }
        }
        assert(n / 10 < pow10((k - 1) as nat));
        lemma_decimal_reads_back(n / 10, (k - 1) as nat);
        lemma_fold_push(decimal(n / 10), digit_char(d), 0);
        assert forall|i: int| 0 <= i < decimal(n).len() implies digit_of(
            #[trigger] decimal(n)[i],
        ) is Some by {
            if i < decimal(n / 10).len() {
                assert(decimal(n)[i] == decimal(n / 10)[i]);
            }
        }
    }
}

/// The last `width` digits of a number below ten to the `width` are made
/// of digits and read back as the number.
pub proof fn lemma_padded_reads_back(n: nat, width: nat)
    requires
        n < pow10(width),
    ensures
        all_digits(padded(n, width)),
        fold_digits(padded(n, width), 0) == n,
        padded(n, width).len() == width,
    decreases width,
{
    if width > 0 {
        let d = (n % 10) as int;
        lemma_digit_char_round_trip(d);
        assert(n / 10 < pow10((width - 1) as nat));
        lemma_padded_reads_back(n / 10, (width - 1) as nat);
        lemma_fold_push(padded(n / 10, (width - 1) as nat), digit_char(d), 0);
        assert forall|i: int| 0 <= i < padded(n, width).len() implies digit_of(
            #[trigger] padded(n, width)[i],
        ) is Some by {
            if i < width - 1 {
                assert(padded(n, width)[i] == padded(n / 10, (width - 1) as nat)[i]);
            }
        }
    }
}

/// Scanning a run of digits that stands at `pos` reads all of it, where
/// the run ends the input, is followed by something else, or fills the limit.
pub proof fn lemma_scan_reads_run(
    input: Seq<char>,
    pos: int,
    digits: Seq<char>,
    value: nat,
    count: nat,
    limit: nat,
)
    requires
        has_at(input, pos, digits),
        all_digits(digits),
        count + digits.len() <= limit,
        count + digits.len() == limit || pos + digits.len() == input.len() || digit_of(
            input[pos + digits.len()],
        ) is None,
    ensures
        scan_digits(input, pos, value, count, limit) == (DigitRun {
            value: fold_digits(digits, value),
            count: count + digits.len(),
            end: pos + digits.len(),
        }),
    decreases digits.len(),
{
    if digits.len() > 0 {
        lemma_has_at_index(input, pos, digits, 0);
        assert(digits =~= seq![digits[0]] + digits.drop_first());
        lemma_has_at_split(input, pos, seq![digits[0]], digits.drop_first());
        assert forall|i: int| 0 <= i < digits.drop_first().len() implies digit_of(
            #[trigger] digits.drop_first()[i],
        ) is Some by {
            assert(digits.drop_first()[i] == digits[i + 1]);
        }
        lemma_scan_reads_run(
            input,
            pos + 1,
            digits.drop_first(),
            value * 10 + digit_of(digits[0])->0 as nat,
            count + 1,
            limit,
        );
    }
}

/// Reads a number with six decimals at `pos`: an optional minus sign, one
/// to twenty digits, a point and six digits. Gives the number in
/// millionths and the position after it.
pub open spec fn parse_fixed(input: Seq<char>, pos: int) -> Option<(int, int)> {
    let negative = has_at(input, pos, seq!['-']);
    let start = if negative {
        pos + 1
    } else {
        pos
    };
    let whole = scan_digits(input, start, 0, 0, 20);
    if whole.count == 0 || !has_at(input, whole.end, seq!['.']) {
        None
    } else {
        let fraction = scan_digits(input, whole.end + 1, 0, 0, 6);
        if fraction.count != 6 {
            None
        } else {
            let magnitude = whole.value * 1_000_000 + fraction.value;
            Some(
                (
                    if negative {
                        -magnitude
                    } else {
                        magnitude as int
                    },
                    fraction.end,
                ),
            )
        }
    }
}

/// A single character stands at a position exactly when it is the
/// character there.
pub proof fn lemma_has_char_at(input: Seq<char>, pos: int, c: char)
    ensures
        has_at(input, pos, seq![c]) <==> 0 <= pos < input.len() && input[pos] == c,
{
    if 0 <= pos < input.len() {
        assert(input.subrange(pos, pos + 1) =~= seq![input[pos]]);
        assert(seq![input[pos]][0] == input[pos]);
        assert(seq![c][0] == c);
    }
}

/// Whether the character `c` stands at `pos`.
pub fn is_char_at(input: &Vec<char>, pos: usize, c: char) -> (found: bool)
    ensures
        found == has_at(input@, pos as int, seq![c]),
{
    proof {
        lemma_has_char_at(input@, pos as int, c);
    }
    pos < input.len() && input[pos] == c
}

/// Reads a number with six decimals at `pos`.
pub fn read_fixed(input: &Vec<char>, pos: usize) -> (r: Option<(i128, usize)>)
    ensures
        match r {
            Some((value, end)) => parse_fixed(input@, pos as int) == Some((value as int, end as int))
                && pos < end <= input@.len(),
            None => parse_fixed(input@, pos as int) is None,
        },
{
    if pos >= input.len() {
        proof {
            lemma_has_char_at(input@, pos as int, '-');
        }
        return None;
    }
    let negative = is_char_at(input, pos, '-');
    let start: usize = if negative {
        pos + 1
    } else {
        pos
    };
    if start > input.len() {
        assert(scan_digits(input@, start as int, 0, 0, 20).count == 0);
        return None;
    }
    let (whole, whole_count, dot) = read_digits(input, start, 20);
    if whole_count == 0 || !is_char_at(input, dot, '.') {
        return None;
    }
    let (fraction, fraction_count, end) = read_digits(input, dot + 1, 6);
    if fraction_count != 6 {
        return None;
    }
    proof {
        lemma_pow10_bound();
        lemma_pow10_values();
        lemma_scan_value_bounded(input@, start as int, 0, 0, 20);
        lemma_scan_value_bounded(input@, dot + 1, 0, 0, 6);
        lemma_pow10_monotonic(whole_count as nat, 20);
    }
    let magnitude: i128 = (whole * 1_000_000 + fraction) as i128;
    if negative {
        Some((-magnitude, end))
    } else {
        Some((magnitude, end))
    }
}

/// A scan that starts below ten to the count stays below ten to the count.
pub proof fn lemma_scan_value_bounded(input: Seq<char>, pos: int, value: nat, count: nat, limit: nat)
    requires
        value < pow10(count),
    ensures
        scan_digits(input, pos, value, count, limit).value < pow10(
            scan_digits(input, pos, value, count, limit).count,
        ),
        count <= limit ==> scan_digits(input, pos, value, count, limit).count <= limit,
    decreases input.len() - pos,
{
    if 0 <= pos < input.len() && count < limit && digit_of(input[pos]) is Some {
        lemma_scan_value_bounded(
            input,
            pos + 1,
            value * 10 + digit_of(input[pos])->0 as nat,
            count + 1,
            limit,
        );
    }
}

/// Rounding millionths to six decimals changes nothing.
pub proof fn lemma_six_decimals_round_nothing(value: nat)
    ensures
        rounded(value, 6) == value,
{
    lemma_pow10_values();
    let unit: nat = pow10((6 - 6) as nat);
    assert(unit == pow10(0));
    assert(unit == 1);
    let half: nat = unit / 2;
    assert(half == 0) by (nonlinear_arith)
        requires
            unit == 1,
            half == unit / 2,
    ;
    assert((value + half) / unit == value) by (nonlinear_arith)
        requires
            unit == 1,
            half == 0,
    ;
}

/// A number with six decimals that stands at `pos` reads back as itself.
pub proof fn lemma_fixed_reads_back(input: Seq<char>, pos: int, value: int)
    requires
        has_at(input, pos, signed_fixed_text(value, 6)),
        -0x8000_0000_0000_0000 <= value <= 0x8000_0000_0000_0000,
    ensures
        parse_fixed(input, pos) == Some((value, pos + signed_fixed_text(value, 6).len())),
{
    lemma_pow10_values();
    lemma_pow10_bound();
    let magnitude: nat = if value < 0 {
        (-value) as nat
    } else {
        value as nat
    };
    let start = if value < 0 {
        pos + 1
    } else {
        pos
    };
    let text = fixed_text(magnitude, 6);
    lemma_six_decimals_round_nothing(magnitude);
    let whole = magnitude / 1_000_000;
    let fraction = magnitude % 1_000_000;
    let whole_text = decimal(whole);
    let fraction_text = padded(fraction, 6);
    assert(text == whole_text + seq!['.'] + fraction_text);
    assert(whole < pow10(20));
    lemma_decimal_reads_back(whole, 20);
    lemma_padded_reads_back(fraction, 6);
    lemma_digit_char_round_trip((whole % 10) as int);
    // the sign
    if value < 0 {
        lemma_has_at_split(input, pos, seq!['-'], text);
    } else {
        assert(has_at(input, start, text));
        lemma_has_at_index(input, start, text, 0);
        assert(text[0] == whole_text[0]);
        assert(digit_of(whole_text[0]) is Some);
        lemma_has_char_at(input, pos, '-');
    }
    assert(has_at(input, start, text));
    // the digits before the point
    assert(text =~= whole_text + (seq!['.'] + fraction_text));
    lemma_has_at_split(input, start, whole_text, seq!['.'] + fraction_text);
    let dot = start + whole_text.len();
    lemma_has_at_split(input, dot, seq!['.'], fraction_text);
    lemma_has_char_at(input, dot, '.');
    lemma_scan_reads_run(input, start, whole_text, 0, 0, 20);
    // the digits after the point
    lemma_scan_reads_run(input, dot + 1, fraction_text, 0, 0, 6);
    assert(whole * 1_000_000 + fraction == magnitude);
}

/// The character that an escape code stands for.
pub open spec fn unescape(code: char) -> Option<char> {
    if code == '"' {
        Some('"')
    } else if code == '\\' {
        Some('\\')
    } else if code == 'n' {
        Some('\n')
    } else if code == 'r' {
        Some('\r')
    } else if code == 't' {
        Some('\t')
    } else {
        None
    }
}

/// The character that an escape code stands for.
pub fn unescape_code(code: char) -> (c: Option<char>)
    ensures
        c == unescape(code),
{
    if code == '"' {
        Some('"')
    } else if code == '\\' {
        Some('\\')
    } else if code == 'n' {
        Some('\n')
    } else if code == 'r' {
        Some('\r')
    } else if code == 't' {
        Some('\t')
    } else {
        None
    }
}

/// The hexadecimal digit that a character stands for, in either case.
pub open spec fn hex_of(c: char) -> Option<int> {
    if digit_of(c) is Some {
        digit_of(c)
    } else if c == 'a' || c == 'A' {
        Some(10)
    } else if c == 'b' || c == 'B' {
        Some(11)
    } else if c == 'c' || c == 'C' {
        Some(12)
    } else if c == 'd' || c == 'D' {
        Some(13)
    } else if c == 'e' || c == 'E' {
        Some(14)
    } else if c == 'f' || c == 'F' {
        Some(15)
    } else {
        None
    }
}

/// The hexadecimal digit that a character stands for.
pub fn hex_value(c: char) -> (d: Option<u8>)
    ensures
        match d {
            Some(v) => hex_of(c) == Some(v as int) && v < 16,
            None => hex_of(c) is None,
        },
{
    match digit_value(c) {
        Some(v) => Some(v),
        None => if c == 'a' || c == 'A' {
            Some(10)
        } else if c == 'b' || c == 'B' {
            Some(11)
        } else if c == 'c' || c == 'C' {
            Some(12)
        } else if c == 'd' || c == 'D' {
            Some(13)
        } else if c == 'e' || c == 'E' {
            Some(14)
        } else if c == 'f' || c == 'F' {
            Some(15)
        } else {
            None
        },
    }
}

/// The character that the escape `\u00` with two hexadecimal digits at
/// `pos` stands for, where `pos` is the place of the `u`.
pub open spec fn unicode_escape(input: Seq<char>, pos: int) -> Option<char> {
    if 0 <= pos && pos + 4 < input.len() && input[pos] == 'u' && input[pos + 1] == '0' && input[pos
        + 2] == '0' && hex_of(input[pos + 3]) is Some && hex_of(input[pos + 4]) is Some {
        Some(((hex_of(input[pos + 3])->0 * 16 + hex_of(input[pos + 4])->0) as u8) as char)
    } else {
        None
    }
}

/// Reads escaped text from `pos` up to the closing quote, continuing the
/// text `so_far`. Gives the text and the position after the quote.
pub open spec fn scan_text(input: Seq<char>, pos: int, so_far: Seq<char>) -> Option<(Seq<char>, int)>
    decreases input.len() - pos,
{
    if !(0 <= pos < input.len()) {
        None
    } else if input[pos] == '"' {
        Some((so_far, pos + 1))
    } else if input[pos] == '\\' {
        if pos + 1 < input.len() && unescape(input[pos + 1]) is Some {
            scan_text(input, pos + 2, so_far.push(unescape(input[pos + 1])->0))
        } else if unicode_escape(input, pos + 1) is Some {
            scan_text(input, pos + 6, so_far.push(unicode_escape(input, pos + 1)->0))
        } else {
            None
        }
    } else {
        scan_text(input, pos + 1, so_far.push(input[pos]))
    }
}

/// Reads the escape `\u00` with two hexadecimal digits, where `pos` is
/// the place of the `u`.
fn read_unicode_escape(input: &Vec<char>, pos: usize) -> (c: Option<char>)
    requires
        pos <= input@.len(),
    ensures
        c == unicode_escape(input@, pos as int),
{
    if input.len() - pos < 5 {
        return None;
    }
    if input[pos] != 'u' || input[pos + 1] != '0' || input[pos + 2] != '0' {
        return None;
    }
    match hex_value(input[pos + 3]) {
        Some(high) => match hex_value(input[pos + 4]) {
            Some(low) => {
                let code: u8 = high * 16 + low;
                Some(code as char)
            },
            None => None,
        },
        None => None,
    }
}

/// Reads a quoted text at `pos`. Gives the text and the position after
/// the closing quote.
pub open spec fn parse_quoted(input: Seq<char>, pos: int) -> Option<(Seq<char>, int)> {
    if has_at(input, pos, seq!['"']) {
        scan_text(input, pos + 1, Seq::empty())
    } else {
        None
    }
}

/// Reads a quoted text at `pos`.
pub fn read_quoted(input: &Vec<char>, pos: usize) -> (r: Option<(String, usize)>)
    ensures
        match r {
            Some((text, end)) => parse_quoted(input@, pos as int) == Some((text@, end as int))
                && pos < end <= input@.len(),
            None => parse_quoted(input@, pos as int) is None,
        },
{
    proof {
        lemma_has_char_at(input@, pos as int, '"');
    }
    if pos >= input.len() || !is_char_at(input, pos, '"') {
        return None;
    }
    let mut text = String::new();
    let mut at: usize = pos + 1;
    while at < input.len()
        invariant
            pos < at <= input@.len(),
            parse_quoted(input@, pos as int) == scan_text(input@, at as int, text@),
        decreases input@.len() - at,
    {
        let c = input[at];
        if c == '"' {
            return Some((text, at + 1));
        } else if c == '\\' {
            if at + 1 >= input.len() {
                return None;
            }
            match unescape_code(input[at + 1]) {
                Some(plain) => {
                    push_char(&mut text, plain);
                    at += 2;
                },
                None => match read_unicode_escape(input, at + 1) {
                    Some(plain) => {
                        push_char(&mut text, plain);
                        at += 6;
                    },
                    None => {
                        return None;
                    },
                },
            }
        } else {
            push_char(&mut text, c);
            at += 1;
        }
    }
    None
}

/// The character of a hexadecimal digit stands for that digit.
pub proof fn lemma_hex_char_round_trip(d: int)
    requires
        0 <= d <= 15,
    ensures
        hex_of(hex_char(d)) == Some(d),
{
}

/// The escape of a character reads back as the character: scanning it
/// adds exactly that character to the text so far.
pub proof fn lemma_escaped_char_reads_back(
    input: Seq<char>,
    pos: int,
    c: char,
    so_far: Seq<char>,
)
    requires
        has_at(input, pos, escaped_char(c)),
    ensures
        scan_text(input, pos, so_far) == scan_text(
            input,
            pos + escaped_char(c).len(),
            so_far.push(c),
        ),
{
    let text = escaped_char(c);
    lemma_has_at_index(input, pos, text, 0);
    if text.len() == 2 {
        lemma_has_at_index(input, pos, text, 1);
    } else if text.len() == 6 {
        let code = (c as u32) as int;
        lemma_has_at_index(input, pos, text, 1);
        lemma_has_at_index(input, pos, text, 2);
        lemma_has_at_index(input, pos, text, 3);
        lemma_has_at_index(input, pos, text, 4);
        lemma_has_at_index(input, pos, text, 5);
        lemma_hex_char_round_trip(code / 16);
        lemma_hex_char_round_trip(code % 16);
        assert(unescape('u') is None);
        assert((code / 16) * 16 + code % 16 == code);
        assert(((code as u8) as char) == c);
        assert(unicode_escape(input, pos + 1) == Some(c));
    }
}

/// An escaped text followed by a quote reads back as the text.
pub proof fn lemma_text_reads_back(input: Seq<char>, pos: int, text: Seq<char>, so_far: Seq<char>)
    requires
        has_at(input, pos, escaped(text) + seq!['"']),
    ensures
        scan_text(input, pos, so_far) == Some((so_far + text, pos + escaped(text).len() + 1)),
    decreases text.len(),
{
    if text.len() == 0 {
        assert(escaped(text) + seq!['"'] =~= seq!['"']);
        lemma_has_char_at(input, pos, '"');
        assert(so_far + text =~= so_far);
    } else {
        let head = escaped_char(text[0]);
        let rest = escaped(text.drop_first()) + seq!['"'];
        assert(escaped(text) + seq!['"'] =~= head + rest);
        lemma_has_at_split(input, pos, head, rest);
        lemma_escaped_char_reads_back(input, pos, text[0], so_far);
        lemma_text_reads_back(input, pos + head.len(), text.drop_first(), so_far.push(text[0]));
        assert(so_far.push(text[0]) + text.drop_first() =~= so_far + text);
        assert(escaped(text).len() == head.len() + escaped(text.drop_first()).len());
    }
}

/// A quoted text that stands at `pos` reads back as the text.
pub proof fn lemma_quoted_reads_back(input: Seq<char>, pos: int, text: Seq<char>)
    requires
        has_at(input, pos, quoted(text)),
    ensures
        parse_quoted(input, pos) == Some((text, pos + quoted(text).len())),
{
    assert(quoted(text) =~= seq!['"'] + (escaped(text) + seq!['"']));
    lemma_has_at_split(input, pos, seq!['"'], escaped(text) + seq!['"']);
    lemma_text_reads_back(input, pos + 1, text, Seq::empty());
    assert(Seq::<char>::empty() + text =~= text);
}

} // verus!
