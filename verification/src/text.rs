//! Character-level helpers: case folding, prefix tests and decimal numerals.

use vstd::prelude::*;

verus! {

/// The ASCII lower-case form of a character; anything but `A`..`Z` is left alone.
pub open spec fn ascii_lower(c: char) -> char {
    if 'A' <= c && c <= 'Z' {
        ((c as u8 + 32) as u8) as char
    } else {
        c
    }
}

/// A sequence with every character folded to ASCII lower case.
pub open spec fn lowered(s: Seq<char>) -> Seq<char> {
    Seq::new(s.len(), |i: int| ascii_lower(s[i]))
}

/// Whether `name` starts with `prefix` once both are folded to ASCII lower case.
pub open spec fn starts_with_folded(name: Seq<char>, prefix: Seq<char>) -> bool {
    lowered(prefix).is_prefix_of(lowered(name))
}

/// Folds one character to ASCII lower case.
pub fn to_ascii_lower(c: char) -> (r: char)
    ensures
        r == ascii_lower(c),
{
    if c >= 'A' && c <= 'Z' {
        ((c as u8) + 32) as char
    } else {
        c
    }
}

/// Tests whether `name` starts with `prefix`, ignoring ASCII case on both sides.
pub fn has_prefix_folded(name: &str, prefix: &str) -> (r: bool)
    ensures
        r == starts_with_folded(name@, prefix@),
{
    let n: usize = name.unicode_len();
    let p: usize = prefix.unicode_len();
    if p > n {
        return false;
    }
    let mut i: usize = 0;
    while i < p
        invariant
            i <= p <= n,
            n == name@.len(),
            p == prefix@.len(),
            forall|j: int| 0 <= j < i ==> ascii_lower(name@[j]) == ascii_lower(prefix@[j]),
        decreases p - i,
    {
        let a: char = to_ascii_lower(name.get_char(i));
        let b: char = to_ascii_lower(prefix.get_char(i));
        if a != b {
            assert(lowered(prefix@)[i as int] != lowered(name@)[i as int]);
            return false;
        }
        i = i + 1;
    }
    assert(lowered(prefix@) =~= lowered(name@).subrange(0, p as int));
    true
}

/// Whether a character is one of `0`..`9`.
pub open spec fn is_digit(c: char) -> bool {
    '0' <= c && c <= '9'
}

/// The character that writes the digit `d`, for `0 <= d <= 9`.
pub open spec fn digit_char(d: int) -> char {
    (('0' as u8 + d) as u8) as char
}

/// The number that a digit character stands for.
pub open spec fn digit_value(c: char) -> int {
    c as u8 - '0' as u8
}

/// The decimal numeral of a natural number, without leading zeros.
pub open spec fn nat_digits(n: nat) -> Seq<char>
    decreases n,
{
    if n < 10 {
        seq![digit_char(n as int)]
    } else {
        nat_digits(n / 10).push(digit_char((n % 10) as int))
    }
}

/// The decimal numeral of an integer: a minus sign before the digits of a
/// negative number, nothing before the others.
pub open spec fn decimal(n: int) -> Seq<char> {
    if n < 0 {
        seq!['-'] + nat_digits((-n) as nat)
    } else {
        nat_digits(n as nat)
    }
}

/// The last `width` decimal digits of `n`, zero-padded on the left.
pub open spec fn fixed_digits(n: nat, width: nat) -> Seq<char>
    decreases width,
{
    if width == 0 {
        Seq::empty()
    } else {
        fixed_digits(n / 10, (width - 1) as nat).push(digit_char((n % 10) as int))
    }
}

/// The number that a sequence of digits writes, most significant digit first.
pub open spec fn digits_value(s: Seq<char>) -> nat
    decreases s.len(),
{
    if s.len() == 0 {
        0
    } else {
        (digits_value(s.drop_last()) * 10 + digit_value(s.last())) as nat
    }
}

/// Whether every character of a sequence is a digit.
pub open spec fn all_digits(s: Seq<char>) -> bool {
    forall|i: int| 0 <= i < s.len() ==> is_digit(#[trigger] s[i])
}

/// Ten to the power `e`.
pub open spec fn pow10(e: nat) -> nat
    decreases e,
{
    if e == 0 {
        1
    } else {
        10 * pow10((e - 1) as nat)
    }
}

/// The one-character string that writes a digit.
fn digit_str(d: u8) -> (r: &'static str)
    requires
        d < 10,
    ensures
        r@ == seq![digit_char(d as int)],
{
    proof {
        reveal_strlit("0");
        reveal_strlit("1");
        reveal_strlit("2");
        reveal_strlit("3");
        reveal_strlit("4");
        reveal_strlit("5");
        reveal_strlit("6");
        reveal_strlit("7");
        reveal_strlit("8");
        reveal_strlit("9");
    }
    let r: &'static str = match d {
        0 => "0",
        1 => "1",
        2 => "2",
        3 => "3",
        4 => "4",
        5 => "5",
        6 => "6",
        7 => "7",
        8 => "8",
        _ => "9",
    };
    assert(r@ =~= seq![digit_char(d as int)]);
    r
}

/// Appends the decimal numeral of `n` to `out`.
pub fn push_nat(out: &mut String, n: u64)
    ensures
        final(out)@ == old(out)@ + nat_digits(n as nat),
    decreases n,
{
    if n >= 10 {
        push_nat(out, n / 10);
    }
    out.append(digit_str((n % 10) as u8));
    assert(out@ =~= old(out)@ + nat_digits(n as nat));
}

/// Appends the decimal numeral of `n` to `out`, with a minus sign if `n` is negative.
pub fn push_decimal(out: &mut String, n: i64)
    ensures
        final(out)@ == old(out)@ + decimal(n as int),
{
    if n < 0 {
        proof {
            reveal_strlit("-");
        }
        out.append("-");
        let m: u64 = ((-(n + 1)) as u64) + 1;
        push_nat(out, m);
        assert(out@ =~= old(out)@ + decimal(n as int));
    } else {
        push_nat(out, n as u64);
    }
}

/// Appends the last `width` decimal digits of `n` to `out`, zero-padded.
pub fn push_fixed(out: &mut String, n: u64, width: u8)
    ensures
        final(out)@ == old(out)@ + fixed_digits(n as nat, width as nat),
    decreases width,
{
    if width > 0 {
        push_fixed(out, n / 10, width - 1);
        out.append(digit_str((n % 10) as u8));
    }
    assert(out@ =~= old(out)@ + fixed_digits(n as nat, width as nat));
}

/// A numeral is never empty and holds digits only.
pub proof fn lemma_nat_digits_shape(n: nat)
    ensures
        nat_digits(n).len() >= 1,
        all_digits(nat_digits(n)),
    decreases n,
{
    if n >= 10 {
        lemma_nat_digits_shape(n / 10);
    }
}

/// Reading a numeral gives back the number that was written.
pub proof fn lemma_nat_digits_value(n: nat)
    ensures
        digits_value(nat_digits(n)) == n,
    decreases n,
{
    if n < 10 {
        let s = nat_digits(n);
        assert(s.drop_last() =~= Seq::<char>::empty());
        assert(digits_value(s.drop_last()) == 0);
    } else {
        lemma_nat_digits_value(n / 10);
        let s = nat_digits(n);
        assert(s.drop_last() =~= nat_digits(n / 10));
    }
}

/// A zero-padded numeral has the width asked for, holds digits only, and
/// reads as the number modulo ten to that width.
pub proof fn lemma_fixed_digits(n: nat, width: nat)
    ensures
        fixed_digits(n, width).len() == width,
        all_digits(fixed_digits(n, width)),
        digits_value(fixed_digits(n, width)) == n % pow10(width),
    decreases width,
{
    if width > 0 {
        let w = (width - 1) as nat;
        lemma_fixed_digits(n / 10, w);
        let s = fixed_digits(n, width);
        assert(s.drop_last() =~= fixed_digits(n / 10, w));
        lemma_pow10_positive(w);
        lemma_mod_of_tenfold(n as int, pow10(w) as int);
    }
}

/// The remainder modulo `10 * p` is ten times the remainder of the tenth
/// modulo `p`, plus the last digit.
proof fn lemma_mod_of_tenfold(n: int, p: int)
    requires
        n >= 0,
        p > 0,
    ensures
        ((n / 10) % p) * 10 + n % 10 == n % (10 * p),
{
    let q = n / 10;
    let k = q / p;
    let m = q % p;
    vstd::arithmetic::div_mod::lemma_fundamental_div_mod(q, p);
    assert(q == p * k + m);
    assert(n == 10 * q + n % 10);
    assert(10 * (p * k + m) == k * (10 * p) + 10 * m) by (nonlinear_arith);
    vstd::arithmetic::div_mod::lemma_fundamental_div_mod_converse(
        n,
        10 * p,
        k,
        10 * m + n % 10,
    );
}

/// Every power of ten is positive.
pub proof fn lemma_pow10_positive(e: nat)
    ensures
        pow10(e) > 0,
    decreases e,
{
    if e > 0 {
        lemma_pow10_positive((e - 1) as nat);
    }
}

/// A sequence of digits reads as a number below ten to its length.
pub proof fn lemma_digits_value_bound(s: Seq<char>)
    requires
        all_digits(s),
    ensures
        digits_value(s) < pow10(s.len()),
    decreases s.len(),
{
    if s.len() > 0 {
        lemma_digits_value_bound(s.drop_last());
    }
}

/// Two integers with the same decimal numeral are the same integer.
pub proof fn lemma_decimal_injective(a: int, b: int)
    requires
        decimal(a) == decimal(b),
    ensures
        a == b,
{
    let ma = (if a < 0 { -a } else { a }) as nat;
    let mb = (if b < 0 { -b } else { b }) as nat;
    lemma_nat_digits_shape(ma);
    lemma_nat_digits_shape(mb);
    lemma_nat_digits_value(ma);
    lemma_nat_digits_value(mb);
    assert(is_digit(nat_digits(ma)[0]));
    assert(is_digit(nat_digits(mb)[0]));
    assert((a < 0) == (decimal(a)[0] == '-'));
    assert((b < 0) == (decimal(b)[0] == '-'));
    if a < 0 {
        assert(decimal(a).subrange(1, decimal(a).len() as int) =~= nat_digits(ma));
        assert(decimal(b).subrange(1, decimal(b).len() as int) =~= nat_digits(mb));
    }
}

/// A decimal numeral holds a minus sign and digits, and so no blank.
pub proof fn lemma_decimal_has_no_blank(n: int)
    ensures
        decimal(n).len() >= 1,
        forall|i: int| 0 <= i < decimal(n).len() ==> #[trigger] decimal(n)[i] != ' ',
{
    let m = (if n < 0 { -n } else { n }) as nat;
    lemma_nat_digits_shape(m);
    assert forall|i: int| 0 <= i < decimal(n).len() implies #[trigger] decimal(n)[i] != ' ' by {
        if n < 0 {
            if i > 0 {
                assert(decimal(n)[i] == nat_digits(m)[i - 1]);
                assert(is_digit(nat_digits(m)[i - 1]));
            }
        } else {
            assert(is_digit(nat_digits(m)[i]));
        }
    }
}

/// Reads the characters of `s` from `start` up to `end` as a decimal number.
/// Gives `None` as soon as one of them is no digit.
pub fn read_digits(s: &str, start: usize, end: usize) -> (r: Option<u64>)
    requires
        start <= end <= s@.len(),
        end - start <= 18,
    ensures
        r is Some <==> all_digits(s@.subrange(start as int, end as int)),
        r matches Some(v) ==> v == digits_value(s@.subrange(start as int, end as int)),
{
    let mut value: u64 = 0;
    let mut i: usize = start;
    while i < end
        invariant
            start <= i <= end <= s@.len(),
            end - start <= 18,
            all_digits(s@.subrange(start as int, i as int)),
            value == digits_value(s@.subrange(start as int, i as int)),
        decreases end - i,
    {
        let c: char = s.get_char(i);
        let ghost before = s@.subrange(start as int, i as int);
        let ghost after = s@.subrange(start as int, i + 1);
        assert(after.drop_last() =~= before);
        assert(after.last() == c);
        if !(c >= '0' && c <= '9') {
            assert(!is_digit(s@.subrange(start as int, end as int)[i - start]));
            return None;
        }
        proof {
            lemma_digits_value_bound(before);
            lemma_pow10_monotonic(before.len(), 17);
            assert(pow10(17) == 100_000_000_000_000_000) by {
                reveal_with_fuel(pow10, 18);
            }
        }
        value = value * 10 + ((c as u8) - ('0' as u8)) as u64;
        i = i + 1;
    }
    assert(s@.subrange(start as int, i as int) =~= s@.subrange(start as int, end as int));
    Some(value)
}

/// Powers of ten grow with the exponent.
pub proof fn lemma_pow10_monotonic(a: nat, b: nat)
    requires
        a <= b,
    ensures
        pow10(a) <= pow10(b),
    decreases b,
{
    if a < b {
        lemma_pow10_monotonic(a, (b - 1) as nat);
    }
}

} // verus!
