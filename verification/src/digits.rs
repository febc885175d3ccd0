//! Numbers written out and read back.

use vstd::arithmetic::power::pow;
use vstd::prelude::*;

use crate::text::string;

verus! {

/// The digit for a value below sixteen, in lower case.
pub open spec fn digit(n: int) -> char {
    if n < 10 {
        ('0' as u8 + n) as char
    } else {
        ('a' as u8 + n - 10) as char
    }
}

/// The value of a digit in the given base, in either case.
pub open spec fn digit_value(c: char, base: int) -> Option<int> {
    let v = if '0' <= c <= '9' {
        c as int - '0' as int
    } else if 'a' <= c <= 'f' {
        c as int - 'a' as int + 10
    } else if 'A' <= c <= 'F' {
        c as int - 'A' as int + 10
    } else {
        16
    };
    if v < base {
        Some(v)
    } else {
        None
    }
}

/// A number in the given base, without leading zeros.
pub open spec fn written(n: nat, base: nat) -> Seq<char>
    decreases n,
{
    if n < base || base < 2 {
        seq![digit(n as int)]
    } else {
        proof {
            assert(n / base < n) by (nonlinear_arith)
                requires
                    base >= 2,
                    n >= base,
            ;
        }
        written(n / base, base).push(digit((n % base) as int))
    }
}

/// A number in decimal.
pub open spec fn decimal(n: nat) -> Seq<char> {
    written(n, 10)
}

/// The lowest `width` hexadecimal digits of a number, with leading zeros.
pub open spec fn hex_padded(n: nat, width: nat) -> Seq<char>
    decreases width,
{
    if width == 0 {
        seq![]
    } else {
        hex_padded(n / 16, (width - 1) as nat).push(digit((n % 16) as int))
    }
}

/// The value of a run of digits.
pub open spec fn digits_value(s: Seq<char>, base: int) -> Option<int>
    decreases s.len(),
{
    if s.len() == 0 {
        Some(0)
    } else {
        match (digits_value(s.drop_last(), base), digit_value(s.last(), base)) {
            (Some(v), Some(d)) => Some(v * base + d),
            _ => None,
        }
    }
}

/// The unsigned number that a text writes: at least one digit, an optional
/// plus sign before them, and a value of at most `max`.
pub open spec fn number(s: Seq<char>, base: int, max: int) -> Option<int> {
    let run = if s.len() > 0 && s[0] == '+' {
        s.skip(1)
    } else {
        s
    };
    if run.len() == 0 {
        None
    } else {
        match digits_value(run, base) {
            Some(v) => if v <= max {
                Some(v)
            } else {
                None
            },
            None => None,
        }
    }
}

/// A run of digits is worth at least what its first ones are worth.
proof fn lemma_value_grows(s: Seq<char>, base: int, i: int)
    requires
        0 <= i <= s.len(),
        base == 10 || base == 16,
    ensures
        digits_value(s, base) matches Some(v) ==> (digits_value(s.take(i), base) matches Some(w) && 0 <= w <= v),
    decreases s.len(),
{
    if i == s.len() {
        assert(s.take(i) =~= s);
        lemma_value_nonnegative(s, base);
    } else {
        let front = s.drop_last();
        lemma_value_grows(front, base, i);
        assert(front.take(i) =~= s.take(i));
    }
}

proof fn lemma_value_nonnegative(s: Seq<char>, base: int)
    requires
        base == 10 || base == 16,
    ensures
        digits_value(s, base) matches Some(v) ==> 0 <= v,
    decreases s.len(),
{
    if s.len() > 0 {
        lemma_value_nonnegative(s.drop_last(), base);
    }
}

fn value_of_digit(c: char, base: u64) -> (r: Option<u64>)
    requires
        base <= 16,
    ensures
        (r matches Some(v) ==> digit_value(c, base as int) == Some(v as int) && v < 16),
        r is None ==> digit_value(c, base as int) is None,
{
    let v: u64 = if '0' <= c && c <= '9' {
        (c as u32 - '0' as u32) as u64
    } else if 'a' <= c && c <= 'f' {
        (c as u32 - 'a' as u32) as u64 + 10
    } else if 'A' <= c && c <= 'F' {
        (c as u32 - 'A' as u32) as u64 + 10
    } else {
        16
    };
    if v < base {
        Some(v)
    } else {
        None
    }
}

/// The unsigned number that a text writes, where it is at most `max`.
pub fn read_number(s: &[char], base: u64, max: u64) -> (r: Option<u64>)
    requires
        base == 10 || base == 16,
    ensures
        (r matches Some(v) ==> number(s@, base as int, max as int) == Some(v as int)),
        r is None ==> number(s@, base as int, max as int) is None,
{
    let start: usize = if s.len() > 0 && s[0] == '+' {
        1
    } else {
        0
    };
    let ghost run = s@.skip(start as int);
    assert(start == 0 ==> run =~= s@);
    if start == s.len() {
        return None;
    }
    let mut value: u64 = 0;
    let mut i: usize = start;
    assert(run.take(0) =~= seq![]);
    while i < s.len()
        invariant
            start <= i <= s@.len(),
            run == s@.skip(start as int),
            run.len() > 0,
            start == 0 ==> run == s@ && s@[0] != '+',
            start > 0 ==> start == 1 && s@[0] == '+',
            base == 10 || base == 16,
            digits_value(run.take(i - start), base as int) == Some(value as int),
        ensures
            i == s@.len(),
        decreases s@.len() - i,
    {
        let ghost next = run.take(i + 1 - start);
        assert(next.drop_last() =~= run.take(i - start));
        assert(next.last() == s@[i as int]);
        proof {
            lemma_value_grows(run, base as int, i + 1 - start);
        }
        let d = match value_of_digit(s[i], base) {
            Some(d) => d,
            None => {
                return None;
            },
        };
        let more: u64 = match value.checked_mul(base) {
            Some(m) => m,
            None => {
                return None;
            },
        };
        value = match more.checked_add(d) {
            Some(m) => m,
            None => {
                return None;
            },
        };
        i = i + 1;
    }
    assert(run.take(i - start) =~= run);
    if value <= max {
        Some(value)
    } else {
        None
    }
}

fn digit_char(n: u8) -> (r: char)
    requires
        n < 16,
    ensures
        r == digit(n as int),
{
    if n < 10 {
        (48 + n) as char
    } else {
        (87 + n) as char
    }
}

/// `s` in the opposite order.
fn reversed(s: &Vec<char>) -> (r: Vec<char>)
    ensures
        r@ == s@.reverse(),
{
    let mut r: Vec<char> = Vec::new();
    let mut i: usize = s.len();
    while i > 0
        invariant
            i <= s@.len(),
            r@.len() == s@.len() - i,
            forall|j: int| 0 <= j < r@.len() ==> r@[j] == s@[s@.len() - 1 - j],
        decreases i,
    {
        i = i - 1;
        r.push(s[i]);
    }
    assert(r@ =~= s@.reverse());
    r
}

/// A number in the given base, without leading zeros.
pub fn write_number(n: u128, base: u128) -> (r: String)
    requires
        base == 10 || base == 16,
    ensures
        r@ == written(n as nat, base as nat),
{
    let mut low: Vec<char> = Vec::new();
    let mut rest: u128 = n;
    while rest >= base
        invariant
            base == 10 || base == 16,
            written(n as nat, base as nat) == written(rest as nat, base as nat) + low@.reverse(),
        decreases rest,
    {
        let ghost before = low@;
        low.push(digit_char((rest % base) as u8));
        assert(low@.reverse() =~= seq![digit((rest % base) as int)] + before.reverse());
        assert(written(rest as nat, base as nat) == written((rest / base) as nat, base as nat).push(
            digit((rest % base) as int),
        ));
        assert(written((rest / base) as nat, base as nat).push(digit((rest % base) as int)) + before.reverse()
            =~= written((rest / base) as nat, base as nat) + low@.reverse());
        rest = rest / base;
    }
    let ghost before = low@;
    low.push(digit_char(rest as u8));
    assert(low@.reverse() =~= seq![digit(rest as int)] + before.reverse());
    let out = reversed(&low);
    string(out.as_slice())
}

/// A number in decimal.
pub fn write_decimal(n: u64) -> (r: String)
    ensures
        r@ == decimal(n as nat),
{
    write_number(n as u128, 10)
}

/// The lowest `width` hexadecimal digits of a number, with leading zeros.
fn write_hex_padded(n: u64, width: usize) -> (r: Vec<char>)
    ensures
        r@ == hex_padded(n as nat, width as nat),
    decreases width,
{
    if width == 0 {
        Vec::new()
    } else {
        let mut r = write_hex_padded(n / 16, width - 1);
        r.push(digit_char((n % 16) as u8));
        r
    }
}

/// Sixteen hexadecimal digits, with leading zeros.
pub fn write_hex16(n: u64) -> (r: String)
    ensures
        r@ == hex_padded(n as nat, 16),
{
    let r = write_hex_padded(n, 16);
    string(r.as_slice())
}

/// Two hexadecimal digits for each byte.
pub open spec fn hex_bytes(bytes: Seq<u8>) -> Seq<char>
    decreases bytes.len(),
{
    if bytes.len() == 0 {
        seq![]
    } else {
        hex_bytes(bytes.drop_last()) + hex_padded(bytes.last() as nat, 2)
    }
}

/// Two hexadecimal digits for each byte.
pub fn write_hex_bytes(bytes: &[u8]) -> (r: String)
    ensures
        r@ == hex_bytes(bytes@),
{
    let mut r: Vec<char> = Vec::new();
    let mut i: usize = 0;
    assert(bytes@.take(0) =~= seq![]);
    while i < bytes.len()
        invariant
            i <= bytes@.len(),
            r@ == hex_bytes(bytes@.take(i as int)),
        decreases bytes@.len() - i,
    {
        let mut pair = write_hex_padded(bytes[i] as u64, 2);
        r.append(&mut pair);
        assert(bytes@.take(i + 1).drop_last() =~= bytes@.take(i as int));
        i = i + 1;
    }
    assert(bytes@.take(i as int) =~= bytes@);
    string(r.as_slice())
}

/// The number that sixteen padded digits write is the number they came from.
pub proof fn lemma_hex16_reads_back(n: u64)
    ensures
        number(hex_padded(n as nat, 16), 16, u64::MAX as int) == Some(n as int),
{
    lemma_hex_value(n as nat, 16);
    assert(hex_padded(n as nat, 16)[0] != '+');
    lemma_pow16();
}

proof fn lemma_pow16()
    ensures
        pow(16, 16) == 0x1_0000_0000_0000_0000,
{
    reveal_with_fuel(pow, 17);
}

proof fn lemma_hex_value(n: nat, width: nat)
    ensures
        hex_padded(n, width).len() == width,
        forall|i: int| 0 <= i < width ==> #[trigger] hex_padded(n, width)[i] != '+',
        digits_value(hex_padded(n, width), 16) == Some((n as int) % pow(16, width)),
    decreases width,
{
    reveal_with_fuel(pow, 2);
    if width == 0 {
        assert(pow(16, 0) == 1);
    } else {
        let w = (width - 1) as nat;
        lemma_hex_value(n / 16, w);
        let s = hex_padded(n, width);
        assert(s.drop_last() =~= hex_padded(n / 16, w));
        vstd::arithmetic::power::lemma_pow_positive(16, w);
        vstd::arithmetic::power::lemma_pow_adds(16, 1, w);
        vstd::arithmetic::div_mod::lemma_mod_breakdown(n as int, 16, pow(16, w));
        assert(pow(16, width) == 16 * pow(16, w));
    }
}

}
