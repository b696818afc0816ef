//! Unsigned numbers written in base ten and base sixteen: reading them from
//! text, writing them, and the proof that reading undoes writing.

use crate::text;
use crate::text::{push_chars, string_of};
use vstd::arithmetic::div_mod::{
    lemma_basic_div, lemma_div_decreases, lemma_div_denominator, lemma_fundamental_div_mod,
    lemma_mod_bound, lemma_small_mod,
};
use vstd::arithmetic::mul::lemma_mul_inequality;
use vstd::arithmetic::power::{
    lemma_pow0, lemma_pow1, lemma_pow_increases, lemma_pow_positive, pow,
};
use vstd::prelude::*;
use vstd::slice::slice_subrange;

verus! {

// ---------------------------------------------------------------------------
// Reading
// ---------------------------------------------------------------------------

/// The value of a digit of base sixteen, in either letter case. Any other
/// character has the value sixteen, which is a digit of no base used here.
pub open spec fn digit_of(c: char) -> nat {
    if '0' <= c <= '9' {
        (c as nat - '0' as nat) as nat
    } else if 'a' <= c <= 'f' {
        (c as nat - 'a' as nat + 10) as nat
    } else if 'A' <= c <= 'F' {
        (c as nat - 'A' as nat + 10) as nat
    } else {
        16
    }
}

/// Whether every character of `s` is a digit of the base `radix`.
pub open spec fn all_digits(s: Seq<char>, radix: nat) -> bool {
    forall|i: int| 0 <= i < s.len() ==> digit_of(#[trigger] s[i]) < radix
}

/// The number that the digits `s` stand for, the most significant one first.
pub open spec fn value(s: Seq<char>, radix: nat) -> nat
    decreases s.len(),
{
    if s.len() == 0 {
        0
    } else {
        value(s.drop_last(), radix) * radix + digit_of(s.last())
    }
}

/// `s` without the plus sign that may stand before its digits.
pub open spec fn without_plus(s: Seq<char>) -> Seq<char> {
    if s.len() > 0 && s[0] == '+' {
        s.skip(1)
    } else {
        s
    }
}

/// The number that `s` denotes in the base `radix`: an optional plus sign and
/// at least one digit, for a value of at most `max`.
pub open spec fn number(s: Seq<char>, radix: nat, max: nat) -> Option<nat> {
    let d = without_plus(s);
    if d.len() > 0 && all_digits(d, radix) && value(d, radix) <= max {
        Some(value(d, radix))
    } else {
        None
    }
}

/// The 64-bit number that `s` denotes in base sixteen.
pub open spec fn hex_u64(s: Seq<char>) -> Option<u64> {
    match number(s, 16, u64::MAX as nat) {
        Some(n) => Some(n as u64),
        None => None,
    }
}

/// The 64-bit number that `s` denotes in base ten.
pub open spec fn decimal_u64(s: Seq<char>) -> Option<u64> {
    match number(s, 10, u64::MAX as nat) {
        Some(n) => Some(n as u64),
        None => None,
    }
}

/// The 32-bit number that `s` denotes in base ten.
pub open spec fn decimal_u32(s: Seq<char>) -> Option<u32> {
    match number(s, 10, u32::MAX as nat) {
        Some(n) => Some(n as u32),
        None => None,
    }
}

proof fn lemma_value_grows(s: Seq<char>, radix: nat, n: int)
    requires
        0 <= n <= s.len(),
        radix >= 1,
    ensures
        value(s.take(n), radix) <= value(s, radix),
    decreases s.len() - n,
{
    if n < s.len() {
        lemma_value_grows(s, radix, n + 1);
        let next = s.take(n + 1);
        assert(next.drop_last() == s.take(n));
        lemma_mul_inequality(1, radix as int, value(s.take(n), radix) as int);
        assert(radix * value(s.take(n), radix) == value(s.take(n), radix) * radix) by (nonlinear_arith);
    } else {
        assert(s.take(n) == s);
    }
}

/// The value of one digit.
pub fn digit(c: char) -> (d: u32)
    ensures
        d == digit_of(c),
{
    if '0' <= c && c <= '9' {
        (c as u32) - ('0' as u32)
    } else if 'a' <= c && c <= 'f' {
        (c as u32) - ('a' as u32) + 10
    } else if 'A' <= c && c <= 'F' {
        (c as u32) - ('A' as u32) + 10
    } else {
        16
    }
}

/// Whether every character of `s` is a digit of the base `radix`.
pub fn only_digits(s: &[char], radix: u32) -> (only: bool)
    ensures
        only == all_digits(s@, radix as nat),
{
    let mut i: usize = 0;
    while i < s.len()
        invariant
            i <= s@.len(),
            forall|j: int| 0 <= j < i ==> digit_of(#[trigger] s@[j]) < radix,
        decreases s@.len() - i,
    {
        if digit(s[i]) >= radix {
            return false;
        }
        i = i + 1;
    }
    true
}

/// The number that `s` denotes in the base `radix`.
fn parse_number(s: &[char], radix: u32) -> (n: Option<u64>)
    requires
        radix == 10 || radix == 16,
    ensures
        match n {
            Some(n) => number(s@, radix as nat, u64::MAX as nat) == Some(n as nat),
            None => number(s@, radix as nat, u64::MAX as nat) is None,
        },
{
    let mut start: usize = 0;
    if s.len() > 0 && s[0] == '+' {
        start = 1;
    }
    let digits = slice_subrange(s, start, s.len());
    assert(digits@ == without_plus(s@));
    if digits.len() == 0 {
        return None;
    }
    let mut total: u64 = 0;
    let mut i: usize = 0;
    while i < digits.len()
        invariant
            radix == 10 || radix == 16,
            digits@ == without_plus(s@),
            i <= digits@.len(),
            all_digits(digits@.take(i as int), radix as nat),
            total == value(digits@.take(i as int), radix as nat),
        decreases digits@.len() - i,
    {
        let d: u32 = digit(digits[i]);
        let ghost before = digits@.take(i as int);
        let ghost after = digits@.take(i + 1);
        assert(after.drop_last() == before);
        assert(after.last() == digits@[i as int]);
        if d >= radix {
            assert(!all_digits(digits@, radix as nat));
            return None;
        }
        assert(total * radix <= 16 * u64::MAX) by (nonlinear_arith)
            requires
                radix <= 16,
                total <= u64::MAX,
        ;
        let next: u128 = (total as u128) * (radix as u128) + (d as u128);
        assert(next == value(after, radix as nat));
        if next > u64::MAX as u128 {
            proof {
                lemma_value_grows(digits@, radix as nat, i + 1);
            }
            return None;
        }
        assert forall|j: int| 0 <= j < after.len() implies digit_of(#[trigger] after[j]) < radix by {
            if j < i {
                assert(after[j] == before[j]);
            }
        }
        total = next as u64;
        i = i + 1;
    }
    assert(digits@.take(digits@.len() as int) == digits@);
    Some(total)
}

/// The 64-bit number that `s` denotes in base sixteen.
pub fn parse_hex_u64(s: &[char]) -> (n: Option<u64>)
    ensures
        n == hex_u64(s@),
{
    parse_number(s, 16)
}

/// The 64-bit number that `s` denotes in base ten.
pub fn parse_decimal_u64(s: &[char]) -> (n: Option<u64>)
    ensures
        n == decimal_u64(s@),
{
    parse_number(s, 10)
}

/// The 32-bit number that `s` denotes in base ten.
pub fn parse_decimal_u32(s: &[char]) -> (n: Option<u32>)
    ensures
        n == decimal_u32(s@),
{
    match parse_number(s, 10) {
        Some(n) => {
            if n <= u32::MAX as u64 {
                Some(n as u32)
            } else {
                None
            }
        },
        None => None,
    }
}

// ---------------------------------------------------------------------------
// Writing
// ---------------------------------------------------------------------------

/// The digit with the given value, in lower case.
pub open spec fn digit_char(d: nat) -> char {
    if d < 10 {
        ('0' as nat + d) as char
    } else {
        ('a' as nat + d - 10) as char
    }
}

/// The digits of `n` in the base `radix`, without leading zeros.
pub open spec fn digits(n: nat, radix: nat) -> Seq<char>
    decreases n,
{
    if radix < 2 || n < radix {
        seq![digit_char(n)]
    } else {
        proof {
            lemma_div_decreases(n as int, radix as int);
        }
        digits(n / radix, radix).push(digit_char(n % radix))
    }
}

/// `s` with zeros before it up to the given width.
pub open spec fn zero_padded(s: Seq<char>, width: nat) -> Seq<char> {
    if s.len() < width {
        Seq::new((width - s.len()) as nat, |i: int| '0') + s
    } else {
        s
    }
}

/// An address as text: `0x` and sixteen digits of base sixteen.
pub open spec fn address_text(addr: u64) -> Seq<char> {
    seq!['0', 'x'] + zero_padded(digits(addr as nat, 16), 16)
}

/// A number as text: `0x` and its digits of base sixteen.
pub open spec fn hex_text(n: u64) -> Seq<char> {
    seq!['0', 'x'] + digits(n as nat, 16)
}

/// A number as text in base ten.
pub open spec fn decimal_text(n: nat) -> Seq<char> {
    digits(n, 10)
}

/// The digit with the given value.
fn char_of_digit(d: u64) -> (c: char)
    requires
        d < 16,
    ensures
        c == digit_char(d as nat),
{
    if d < 10 {
        (48u8 + (d as u8)) as char
    } else {
        (97u8 + ((d - 10) as u8)) as char
    }
}

/// Appends the digits of `n` to `out`.
fn push_digits(out: &mut Vec<char>, n: u64, radix: u64)
    requires
        radix == 10 || radix == 16,
    ensures
        final(out)@ == old(out)@ + digits(n as nat, radix as nat),
    decreases n,
{
    if n < radix {
        out.push(char_of_digit(n));
        assert(out@ == old(out)@ + seq![digit_char(n as nat)]);
    } else {
        push_digits(out, n / radix, radix);
        out.push(char_of_digit(n % radix));
        assert(out@ == old(out)@ + digits(n as nat, radix as nat));
    }
}

/// The text of an address.
pub fn format_address(addr: u64) -> (s: String)
    ensures
        s@ == address_text(addr),
{
    let mut low: Vec<char> = Vec::new();
    push_digits(&mut low, addr, 16);
    assert(low@ == digits(addr as nat, 16));
    let mut s = String::new();
    s.push('0');
    s.push('x');
    let ghost head = s@;
    assert(head == seq!['0', 'x']);
    let mut width: usize = low.len();
    let ghost mut zeros: Seq<char> = Seq::empty();
    assert(head + zeros == head);
    while width < 16
        invariant
            low@.len() <= width,
            width <= 16 || width == low@.len(),
            zeros == Seq::new((width - low@.len()) as nat, |i: int| '0'),
            s@ == head + zeros,
        decreases 16 - width,
    {
        s.push('0');
        proof {
            assert((head + zeros).push('0') == head + zeros.push('0'));
            zeros = zeros.push('0');
        }
        width = width + 1;
    }
    push_chars(&mut s, low.as_slice());
    assert(s@ == address_text(addr));
    s
}

/// The text of a number in base sixteen.
pub fn format_hex(n: u64) -> (s: String)
    ensures
        s@ == hex_text(n),
{
    let mut all: Vec<char> = Vec::new();
    all.push('0');
    all.push('x');
    push_digits(&mut all, n, 16);
    assert(all@ == hex_text(n));
    string_of(all.as_slice())
}

/// The text of a number in base ten.
pub fn format_decimal(n: u64) -> (s: String)
    ensures
        s@ == decimal_text(n as nat),
{
    let mut all: Vec<char> = Vec::new();
    push_digits(&mut all, n, 10);
    assert(all@ == decimal_text(n as nat));
    string_of(all.as_slice())
}

// ---------------------------------------------------------------------------
// Reading undoes writing
// ---------------------------------------------------------------------------

/// The digits of a number denote that number.
pub proof fn lemma_digits_value(n: nat, radix: nat)
    requires
        radix == 10 || radix == 16,
    ensures
        digits(n, radix).len() > 0,
        all_digits(digits(n, radix), radix),
        value(digits(n, radix), radix) == n,
    decreases n,
{
    let s = digits(n, radix);
    if n < radix {
        assert(s.drop_last() == Seq::<char>::empty());
        assert(value(s.drop_last(), radix) == 0);
        assert(digit_of(s.last()) == n);
    } else {
        let high = digits(n / radix, radix);
        lemma_digits_value(n / radix, radix);
        lemma_mod_bound(n as int, radix as int);
        lemma_fundamental_div_mod(n as int, radix as int);
        assert(s.drop_last() == high);
        assert(digit_of(s.last()) == n % radix);
        assert(radix * (n / radix) == (n / radix) * radix) by (nonlinear_arith);
        assert forall|i: int| 0 <= i < s.len() implies digit_of(#[trigger] s[i]) < radix by {
            if i < high.len() {
                assert(s[i] == high[i]);
            }
        }
    }
}

/// Zeros before the digits of a number do not change it.
pub proof fn lemma_padding_value(s: Seq<char>, width: nat, radix: nat)
    requires
        radix == 10 || radix == 16,
        all_digits(s, radix),
    ensures
        all_digits(zero_padded(s, width), radix),
        value(zero_padded(s, width), radix) == value(s, radix),
    decreases s.len(), width,
{
    let p = zero_padded(s, width);
    assert forall|i: int| 0 <= i < p.len() implies digit_of(#[trigger] p[i]) < radix by {
        if s.len() < width && i >= width - s.len() {
            assert(p[i] == s[i - (width - s.len())]);
        }
    }
    if s.len() < width {
        if s.len() == 0 {
            lemma_padding_value(s, (width - 1) as nat, radix);
            let shorter = zero_padded(s, (width - 1) as nat);
            assert(p.drop_last() =~= shorter);
            assert(p.last() == '0');
        } else {
            lemma_padding_value(s.drop_last(), (width - 1) as nat, radix);
            assert(p.drop_last() =~= zero_padded(s.drop_last(), (width - 1) as nat));
            assert(p.last() == s.last());
        }
    }
}

/// The digits of a 64-bit number in base sixteen are at most sixteen.
pub proof fn lemma_hex_digits_len(n: nat, size: nat)
    requires
        size >= 1,
        n < pow(16, size),
    ensures
        digits(n, 16).len() <= size,
    decreases size,
{
    if n >= 16 {
        if size == 1 {
            lemma_pow1(16);
        } else {
            reveal(pow);
            let below = pow(16, (size - 1) as nat);
            assert(pow(16, size) == 16 * below);
            assert(n / 16 < below);
            lemma_hex_digits_len(n / 16, (size - 1) as nat);
        }
    }
}

/// What denotes a number is a word without a minus sign.
pub proof fn lemma_number_is_word(s: Seq<char>, radix: nat, max: nat)
    requires
        number(s, radix, max) is Some,
        radix <= 16,
    ensures
        text::is_word(s),
        !s.contains('-'),
{
    let d = without_plus(s);
    assert forall|i: int| 0 <= i < s.len() implies !text::is_white_space(#[trigger] s[i]) && s[i]
        != '-' by {
        if s[0] == '+' && i > 0 {
            assert(s[i] == d[i - 1]);
            assert(digit_of(d[i - 1]) < radix);
        } else if s[0] != '+' {
            assert(digit_of(d[i]) < radix);
        }
    }
}

/// The text of an address is eighteen characters long.
pub proof fn law_address_text_width(addr: u64)
    ensures
        address_text(addr).len() == 18,
{
    assert(pow(16, 16) == 0x1_0000_0000_0000_0000) by {
        reveal_with_fuel(pow, 17);
    }
    lemma_hex_digits_len(addr as nat, 16);
}

/// The digits of an address text, read in base sixteen, are the address.
pub proof fn lemma_address_digits(addr: u64)
    ensures
        hex_u64(address_text(addr).skip(2)) == Some(addr),
{
    let plain = digits(addr as nat, 16);
    let padded = zero_padded(plain, 16);
    lemma_digits_value(addr as nat, 16);
    lemma_padding_value(plain, 16, 16);
    assert(address_text(addr).skip(2) =~= padded);
    assert(digit_of(padded[0]) < 16);
    assert(without_plus(padded) == padded);
}

/// A number written in base ten reads as itself.
pub proof fn law_decimal_round_trip(n: u64)
    ensures
        decimal_u64(decimal_text(n as nat)) == Some(n),
        n <= u32::MAX ==> decimal_u32(decimal_text(n as nat)) == Some(n as u32),
{
    let s = decimal_text(n as nat);
    lemma_digits_value(n as nat, 10);
    assert(digit_of(s[0]) < 10);
    assert(without_plus(s) == s);
}

/// The text of an address neither begins nor ends in white space.
pub proof fn lemma_address_trimmed(addr: u64)
    ensures
        text::trimmed(address_text(addr)) == address_text(addr),
{
    let s = address_text(addr);
    let plain = digits(addr as nat, 16);
    lemma_digits_value(addr as nat, 16);
    assert(s.last() == plain.last());
    assert(digit_of(plain[plain.len() - 1]) < 16);
    assert(text::span(s, text::white()) == 0);
    assert(text::trim_start(s) =~= s);
}

// ---------------------------------------------------------------------------
// What digits and numbers are
// ---------------------------------------------------------------------------

/// The digits of base sixteen in the order of their values, the first ten of
/// them those of base ten.
pub open spec fn numerals() -> Seq<char> {
    seq!['0', '1', '2', '3', '4', '5', '6', '7', '8', '9', 'a', 'b', 'c', 'd', 'e', 'f']
}

/// The same with upper-case letters.
pub open spec fn upper_numerals() -> Seq<char> {
    seq!['0', '1', '2', '3', '4', '5', '6', '7', '8', '9', 'A', 'B', 'C', 'D', 'E', 'F']
}

/// The value of a digit is its place among the digits, in either letter case,
/// and no other character is a digit.
pub proof fn law_digit_values(c: char, d: int)
    ensures
        0 <= d < 16 ==> digit_of(numerals()[d]) == d && digit_of(upper_numerals()[d]) == d,
        0 <= d < 16 ==> digit_char(d as nat) == numerals()[d],
        digit_of(c) < 16 <==> numerals().contains(c) || upper_numerals().contains(c),
{
    let low = numerals();
    let high = upper_numerals();
    assert forall|k: int| 0 <= k < 16 implies digit_of(#[trigger] low[k]) == k && digit_of(high[k])
        == k && digit_char(k as nat) == low[k] by {
        if k < 8 {
            assert(k == 0 || k == 1 || k == 2 || k == 3 || k == 4 || k == 5 || k == 6 || k == 7);
        } else {
            assert(k == 8 || k == 9 || k == 10 || k == 11 || k == 12 || k == 13 || k == 14 || k
                == 15);
        }
    }
    if digit_of(c) < 16 {
        let k = digit_of(c) as int;
        if 'A' <= c <= 'F' {
            assert(k == 10 || k == 11 || k == 12 || k == 13 || k == 14 || k == 15);
            assert(high[k] == c);
        } else {
            assert(digit_char(k as nat) == c);
            assert(low[k] == c);
        }
    }
    if low.contains(c) {
        let k = choose|k: int| 0 <= k < low.len() && low[k] == c;
        assert(digit_of(low[k]) == k);
    }
    if high.contains(c) {
        let k = choose|k: int| 0 <= k < high.len() && high[k] == c;
        assert(digit_of(low[k]) == k && digit_of(high[k]) == k);
    }
}

/// A digit behind a number makes it as many times larger as the base says, and
/// adds its own value.
pub proof fn law_value_of_digits(s: Seq<char>, c: char, radix: nat)
    ensures
        value(Seq::<char>::empty(), radix) == 0,
        value(s.push(c), radix) == value(s, radix) * radix + digit_of(c),
{
    assert(s.push(c).drop_last() =~= s);
}

/// Digits of base sixteen denote their value if it fits into 64 bits, with a
/// plus sign or without.
pub proof fn law_hex_numbers_read(d: Seq<char>)
    requires
        d.len() > 0,
        forall|i: int| 0 <= i < d.len() ==> digit_of(#[trigger] d[i]) < 16,
    ensures
        hex_u64(d) == if value(d, 16) <= 0xffff_ffff_ffff_ffff {
            Some(value(d, 16) as u64)
        } else {
            None
        },
        hex_u64(seq!['+'] + d) == hex_u64(d),
{
    assert(digit_of(d[0]) < 16);
    assert((seq!['+'] + d).skip(1) =~= d);
}

/// Digits of base ten denote their value if it fits into the number of bits
/// that is asked for, with a plus sign or without.
pub proof fn law_decimal_numbers_read(d: Seq<char>)
    requires
        d.len() > 0,
        forall|i: int| 0 <= i < d.len() ==> digit_of(#[trigger] d[i]) < 10,
    ensures
        decimal_u64(d) == if value(d, 10) <= 0xffff_ffff_ffff_ffff {
            Some(value(d, 10) as u64)
        } else {
            None
        },
        decimal_u32(d) == if value(d, 10) <= 0xffff_ffff {
            Some(value(d, 10) as u32)
        } else {
            None
        },
        decimal_u64(seq!['+'] + d) == decimal_u64(d),
        decimal_u32(seq!['+'] + d) == decimal_u32(d),
{
    assert(digit_of(d[0]) < 10);
    assert((seq!['+'] + d).skip(1) =~= d);
}

/// Whether `s` is one digit or more of the base `radix`, perhaps behind a plus
/// sign.
pub open spec fn is_numeral(s: Seq<char>, radix: nat) -> bool {
    exists|d: Seq<char>|
        {
            &&& d.len() > 0
            &&& forall|i: int| 0 <= i < d.len() ==> digit_of(#[trigger] d[i]) < radix
            &&& s == d || s == #[trigger] (seq!['+'] + d)
        }
}

/// Nothing but digits, perhaps behind a plus sign, denotes a number.
pub proof fn law_only_numerals_read(s: Seq<char>)
    ensures
        hex_u64(s) is Some ==> is_numeral(s, 16),
        decimal_u64(s) is Some ==> is_numeral(s, 10),
        decimal_u32(s) is Some ==> is_numeral(s, 10),
{
    let d = without_plus(s);
    if s.len() > 0 && s[0] == '+' {
        assert(s =~= seq!['+'] + d);
    }
    let signed = seq!['+'] + d;
}

/// What a number has at a place, counted from the last one, in the base
/// `radix`.
pub open spec fn at_place(n: int, radix: int, place: nat) -> int {
    (n / pow(radix, place)) % radix
}

/// The digits of a number without leading zeros, place by place: there are as
/// many as the number needs, and each one is what the number has at its place.
pub proof fn law_digits_by_place(n: nat, radix: nat)
    requires
        radix == 10 || radix == 16,
    ensures
        digits(n, radix).len() > 0,
        n < pow(radix as int, digits(n, radix).len()),
        digits(n, radix).len() > 1 ==> pow(radix as int, (digits(n, radix).len() - 1) as nat) <= n,
        forall|i: int|
            0 <= i < digits(n, radix).len() ==> #[trigger] digits(n, radix)[i]
                == numerals()[at_place(
                n as int,
                radix as int,
                (digits(n, radix).len() - 1 - i) as nat,
            )],
    decreases n,
{
    let s = digits(n, radix);
    let r = radix as int;
    lemma_pow0(r);
    lemma_pow1(r);
    lemma_fundamental_div_mod(n as int, r);
    lemma_mod_bound(n as int, r);
    law_digit_values('0', n as int % r);
    if n < radix {
        lemma_small_mod(n, radix);
        assert(at_place(n as int, r, 0) == n);
    } else {
        let h = n as int / r;
        let high = digits(n / radix, radix);
        let k = high.len();
        let p = pow(r, k);
        let q = pow(r, (k - 1) as nat);
        lemma_div_decreases(n as int, r);
        law_digits_by_place(n / radix, radix);
        lemma_pow_step(r, k);
        lemma_pow_step(r, (k - 1) as nat);
        assert(r * h + r <= r * p) by (nonlinear_arith)
            requires
                h + 1 <= p,
                r > 0,
        ;
        if k > 1 {
            assert(r * q <= r * h) by (nonlinear_arith)
                requires
                    q <= h,
                    r > 0,
            ;
        }
        assert forall|i: int| 0 <= i < s.len() implies #[trigger] s[i] == numerals()[at_place(
            n as int,
            r,
            (s.len() - 1 - i) as nat,
        )] by {
            if i < k {
                let place = (k - 1 - i) as nat;
                lemma_pow_positive(r, place);
                lemma_pow_step(r, place);
                assert(s[i] == high[i]);
                lemma_div_denominator(n as int, r, pow(r, place));
                assert(at_place(h, r, place) == at_place(n as int, r, place + 1));
            } else {
                assert(at_place(n as int, r, 0) == n as int % r);
            }
        }
    }
}

proof fn lemma_pow_step(base: int, k: nat)
    ensures
        pow(base, k + 1) == base * pow(base, k),
{
    reveal(pow);
}

/// An address is written as `0x` and sixteen lower-case digits, the one at
/// each place being what the address has there.
pub proof fn law_address_by_place(addr: u64)
    ensures
        address_text(addr).len() == 18,
        address_text(addr)[0] == '0',
        address_text(addr)[1] == 'x',
        forall|i: int|
            0 <= i < 16 ==> #[trigger] address_text(addr)[i + 2] == numerals()[at_place(
                addr as int,
                16,
                (15 - i) as nat,
            )],
{
    let s = digits(addr as nat, 16);
    law_address_text_width(addr);
    law_digits_by_place(addr as nat, 16);
    assert(s.len() <= 16) by {
        if s.len() > 16 {
            lemma_pow_increases(16, 16, (s.len() - 1) as nat);
            assert(pow(16, 16) == 0x1_0000_0000_0000_0000) by {
                reveal_with_fuel(pow, 17);
            }
        }
    }
    assert forall|i: int| 0 <= i < 16 implies #[trigger] address_text(addr)[i + 2]
        == numerals()[at_place(addr as int, 16, (15 - i) as nat)] by {
        let gap = 16 - s.len();
        lemma_pow_positive(16, (15 - i) as nat);
        if i < gap {
            lemma_pow_increases(16, s.len(), (15 - i) as nat);
            lemma_basic_div(addr as int, pow(16, (15 - i) as nat));
            assert(address_text(addr)[i + 2] == '0');
        } else {
            assert(address_text(addr)[i + 2] == s[i - gap]);
        }
    }
}

/// The offset of a region is written as `0x` and lower-case digits, a number
/// of base ten as its digits, in both cases without leading zeros.
pub proof fn law_plain_texts(n: u64)
    ensures
        hex_text(n) == seq!['0', 'x'] + digits(n as nat, 16),
        decimal_text(n as nat) == digits(n as nat, 10),
        hex_u64(hex_text(n).skip(2)) == Some(n),
{
    lemma_digits_value(n as nat, 16);
    let d = digits(n as nat, 16);
    assert(hex_text(n).skip(2) =~= d);
    assert(digit_of(d[0]) < 16);
}

} // verus!
