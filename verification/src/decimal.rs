//! Process identifiers in decimal, as code units.
use vstd::prelude::*;

verus! {

/// The digit zero.
pub const ZERO: u16 = 0x30;

/// The plus sign.
pub const PLUS: u16 = 0x2B;

/// Whether `c` is one of the ten ASCII digits.
pub open spec fn is_digit(c: u16) -> bool {
    0x30 <= c <= 0x39
}

/// Whether every unit of `s` is a digit.
pub open spec fn all_digits(s: Seq<u16>) -> bool {
    forall|i: int| 0 <= i < s.len() ==> is_digit(#[trigger] s[i])
}

/// The number that the digits of `s` write in base ten.
pub open spec fn digits_value(s: Seq<u16>) -> nat
    decreases s.len(),
{
    if s.len() == 0 {
        0
    } else {
        (digits_value(s.drop_last()) * 10 + (s.last() - 0x30)) as nat
    }
}

/// The digits of `s` once an optional leading plus sign is taken off.
pub open spec fn unsigned_part(s: Seq<u16>) -> Seq<u16> {
    if s.len() > 0 && s[0] == PLUS {
        s.skip(1)
    } else {
        s
    }
}

/// The identifier that `s` writes: an optional plus sign, then at least one
/// digit and nothing else, with a value that a `u32` holds.
pub open spec fn parse_u32_spec(s: Seq<u16>) -> Option<u32> {
    let d = unsigned_part(s);
    if d.len() > 0 && all_digits(d) && digits_value(d) <= u32::MAX {
        Some(digits_value(d) as u32)
    } else {
        None
    }
}

/// The decimal digits of `n`, without leading zeros.
pub open spec fn decimal_spec(n: nat) -> Seq<u16>
    decreases n,
{
    if n < 10 {
        seq![(0x30 + n) as u16]
    } else {
        decimal_spec(n / 10).push((0x30 + n % 10) as u16)
    }
}

/// A longer run of digits never writes a smaller number than its start.
pub proof fn lemma_digits_value_grows(s: Seq<u16>, k: int)
    requires
        0 <= k <= s.len(),
        all_digits(s),
    ensures
        digits_value(s.take(k)) <= digits_value(s),
    decreases s.len(),
{
    if k == s.len() {
        assert(s.take(k) =~= s);
    } else {
        let t = s.drop_last();
        assert(t.take(k) =~= s.take(k));
        assert(is_digit(s[s.len() - 1]));
        lemma_digits_value_grows(t, k);
    }
}

/// What `decimal_spec` writes is made of digits, is not empty, and writes `n`.
pub proof fn lemma_decimal_spec(n: nat)
    ensures
        decimal_spec(n).len() > 0,
        all_digits(decimal_spec(n)),
        digits_value(decimal_spec(n)) == n,
    decreases n,
{
    if n < 10 {
        let s = decimal_spec(n);
        assert(s.drop_last() =~= Seq::<u16>::empty());
        assert(digits_value(s.drop_last()) == 0);
    } else {
        lemma_decimal_spec(n / 10);
        let s = decimal_spec(n);
        assert(s.drop_last() =~= decimal_spec(n / 10));
    }
}

/// Reading back the decimal form of an identifier gives the identifier.
pub proof fn lemma_parse_decimal(n: u32)
    ensures
        parse_u32_spec(decimal_spec(n as nat)) == Some(n),
{
    lemma_decimal_spec(n as nat);
}

/// Reads a process identifier: an optional plus sign and decimal digits.
/// `None` where the token is empty, holds anything else, or writes a number
/// that a `u32` cannot hold.
pub fn parse_u32(token: &[u16]) -> (id: Option<u32>)
    ensures
        id == parse_u32_spec(token@),
{
    let n: usize = token.len();
    let start: usize = if n > 0 && token[0] == PLUS { 1 } else { 0 };
    let ghost d = unsigned_part(token@);
    assert(d =~= token@.skip(start as int));
    if start == n {
        return None;
    }
    let mut acc: u64 = 0;
    let mut i: usize = start;
    while i < n
        invariant
            start <= i <= n,
            n == token@.len(),
            d == token@.skip(start as int),
            d == unsigned_part(token@),
            acc <= u32::MAX,
            acc == digits_value(d.take(i - start)),
            all_digits(d.take(i - start)),
        decreases n - i,
    {
        let c: u16 = token[i];
        let ghost k = i - start;
        assert(d[k] == c);
        if c < 0x30 || c > 0x39 {
            assert(!is_digit(d[k]));
            return None;
        }
        proof {
            assert(d.take(k + 1).drop_last() =~= d.take(k));
            assert(d.take(k + 1).last() == c);
            assert forall|j: int| 0 <= j < k + 1 implies is_digit(#[trigger] d.take(k + 1)[j]) by {
                if j < k {
                    assert(d.take(k)[j] == d.take(k + 1)[j]);
                }
            }
        }
        let next: u64 = acc * 10 + (c - 0x30) as u64;
        assert(next == digits_value(d.take(k + 1)));
        if next > 0xFFFF_FFFF {
            proof {
                if all_digits(d) {
                    lemma_digits_value_grows(d, k + 1);
                }
            }
            return None;
        }
        acc = next;
        i += 1;
    }
    assert(d.take(n - start) =~= d);
    Some(acc as u32)
}

/// Writes a process identifier in decimal, without leading zeros.
pub fn decimal(n: u32) -> (digits: Vec<u16>)
    ensures
        digits@ == decimal_spec(n as nat),
    decreases n,
{
    if n < 10 {
        let mut digits: Vec<u16> = Vec::new();
        digits.push(0x30 + n as u16);
        assert(digits@ =~= decimal_spec(n as nat));
        digits
    } else {
        let mut digits = decimal(n / 10);
        digits.push(0x30 + (n % 10) as u16);
        digits
    }
}

} // verus!
