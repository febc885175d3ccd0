//! Numbers.

use vstd::prelude::*;

verus! {

use crate::digits::{decimal, digit, digit_value, digits_value, hex_bytes, hex_padded, number, written};
use crate::hash::fnv;

proof fn lemma_digits_read_back(n: nat, base: nat)
    requires
        base == 10 || base == 16,
    ensures
        digits_value(written(n, base), base as int) == Some(n as int),
        written(n, base).len() > 0,
        written(n, base)[0] != '+',
        forall|i: int| 0 <= i < written(n, base).len() ==> digit_value(#[trigger] written(n, base)[i], base as int) is Some,
    decreases n,
{
    let w = written(n, base);
    if n < base {
        assert(w.drop_last() =~= seq![]);
        assert(digit_value(digit(n as int), base as int) == Some(n as int));
        reveal_with_fuel(digits_value, 2);
    } else {
        assert(n / base < n) by (nonlinear_arith)
            requires
                base >= 2,
                n >= base,
        ;
        lemma_digits_read_back(n / base, base);
        assert(w.drop_last() =~= written(n / base, base));
        let d = (n % base) as int;
        assert(0 <= d < base);
        assert(digit_value(digit(d), base as int) == Some(d));
        assert((n / base) * base + n % base == n) by (nonlinear_arith)
            requires
                base >= 2,
        ;
        assert forall|i: int| 0 <= i < w.len() implies digit_value(#[trigger] w[i], base as int) is Some by {
            if i < w.len() - 1 {
                assert(w[i] == written(n / base, base)[i]);
            }
        }
    }
}

/// A number that is written out is read back, where it is not too large; with a plus
/// sign before it too.
pub proof fn law_numbers_read_back(n: nat, base: nat, max: int)
    requires
        base == 10 || base == 16,
    ensures
        number(written(n, base), base as int, max) == (if n <= max {
            Some(n as int)
        } else {
            None
        }),
        number(seq!['+'] + written(n, base), base as int, max) == number(written(n, base), base as int, max),
        decimal(n) == written(n, 10),
{
    lemma_digits_read_back(n, base);
    let s = seq!['+'] + written(n, base);
    assert(s[0] == '+');
    assert(s.skip(1) =~= written(n, base));
}

proof fn lemma_not_digits(s: Seq<char>, base: int, i: int)
    requires
        0 <= i < s.len(),
        digit_value(s[i], base) is None,
    ensures
        digits_value(s, base) is None,
    decreases s.len(),
{
    if i < s.len() - 1 {
        lemma_not_digits(s.drop_last(), base, i);
    }
}

/// One digit, in either case.
pub proof fn law_one_digit(c: char, max: int)
    requires
        max >= 15,
    ensures
        number(seq![c], 16, max) == (if '0' <= c <= '9' {
            Some(c as int - '0' as int)
        } else if 'a' <= c <= 'f' {
            Some(10 + c as int - 'a' as int)
        } else if 'A' <= c <= 'F' {
            Some(10 + c as int - 'A' as int)
        } else {
            None
        }),
        number(seq![c], 10, max) == (if '0' <= c <= '9' {
            Some(c as int - '0' as int)
        } else {
            None
        }),
{
    reveal_with_fuel(digits_value, 2);
    assert(seq![c].drop_last() =~= seq![]);
    if c == '+' {
        assert(seq![c].skip(1) =~= seq![]);
    }
}

/// One more digit.
pub proof fn law_one_more_digit(s: Seq<char>, c: char, base: int, max: int, v: int, d: int)
    requires
        base == 10 || base == 16,
        max >= 15,
        number(s, base, max) == Some(v),
        number(seq![c], base, max) == Some(d),
    ensures
        number(s.push(c), base, max) == (if v * base + d <= max {
            Some(v * base + d)
        } else {
            None
        }),
{
    law_one_digit(c, max);
    reveal_with_fuel(digits_value, 2);
    assert(seq![c].drop_last() =~= seq![]);
    assert(s.push(c).drop_last() =~= s);
    if s[0] == '+' {
        assert(s.push(c).skip(1) =~= s.skip(1).push(c));
        assert(s.skip(1).push(c).drop_last() =~= s.skip(1));
    }
    assert(s.push(c)[0] == s[0]);
}

/// A text with anything in it but digits is no number, and neither is an empty one.
pub proof fn law_other_texts_are_no_numbers(s: Seq<char>, i: int, max: int)
    requires
        0 <= i < s.len(),
        !('0' <= s[i] <= '9'),
        s[i] == '+' ==> i > 0 || s.len() == 1,
    ensures
        number(s, 10, max) is None,
        number(seq![], 10, max) is None,
{
    if s[0] == '+' {
        let run = s.skip(1);
        if s.len() > 1 {
            assert(run[i - 1] == s[i]);
            lemma_not_digits(run, 10, i - 1);
        }
    } else {
        lemma_not_digits(s, 10, i);
    }
}

/// Numbers in decimal differ where the numbers do.
pub proof fn law_decimal_tells_numbers_apart(a: nat, b: nat)
    ensures
        decimal(a) == decimal(b) <==> a == b,
        !decimal(a).contains(':'),
        !decimal(a).contains('\n'),
{
    lemma_digits_read_back(a, 10);
    lemma_digits_read_back(b, 10);
    if decimal(a).contains(':') {
        let i = choose|i: int| 0 <= i < decimal(a).len() && decimal(a)[i] == ':';
        assert(digit_value(written(a, 10)[i], 10) is Some);
    }
    if decimal(a).contains('\n') {
        let i = choose|i: int| 0 <= i < decimal(a).len() && decimal(a)[i] == '\n';
        assert(digit_value(written(a, 10)[i], 10) is Some);
    }
}

/// Padded digits have their width, and each stands for its sixteenth of the number.
pub proof fn law_padded_digits(n: nat, width: nat)
    ensures
        hex_padded(n, width).len() == width,
        width > 0 ==> digit_value(hex_padded(n, width).last(), 16) == Some((n % 16) as int),
        width > 0 ==> hex_padded(n, width).drop_last() == hex_padded(n / 16, (width - 1) as nat),
        width > 0 ==> !('A' <= hex_padded(n, width).last() <= 'F'),
    decreases width,
{
    if width > 0 {
        law_padded_digits(n / 16, (width - 1) as nat);
        let d = (n % 16) as int;
        assert(digit_value(digit(d), 16) == Some(d));
        assert(hex_padded(n, width).drop_last() =~= hex_padded(n / 16, (width - 1) as nat));
    }
}

/// Every byte takes two digits.
pub proof fn law_bytes_in_digits(bytes: Seq<u8>, b: u8)
    ensures
        hex_bytes(seq![]) == Seq::<char>::empty(),
        hex_bytes(bytes.push(b)) == hex_bytes(bytes) + hex_padded(b as nat, 2),
{
    assert(bytes.push(b).drop_last() =~= bytes);
}

/// The hash mixes in every byte, the last one last.
pub proof fn law_hash(bytes: Seq<u8>, b: u8)
    ensures
        fnv(seq![]) == 0xcbf2_9ce4_8422_2325u64,
        fnv(bytes.push(b)) as int == ((fnv(bytes) ^ (b as u64)) * 0x100_0000_01b3) % 0x1_0000_0000_0000_0000,
{
    assert(bytes.push(b).drop_last() =~= bytes);
}

/// A number in decimal has no whitespace around it.
pub proof fn law_decimal_is_solid(n: nat)
    ensures
        decimal(n).len() > 0,
        crate::laws::text::solid(decimal(n)),
{
    lemma_digits_read_back(n, 10);
    let d = decimal(n);
    assert(digit_value(written(n, 10)[0], 10) is Some);
    assert(digit_value(written(n, 10)[d.len() - 1], 10) is Some);
}

}
