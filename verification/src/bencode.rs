//! The pieces of bencoding that extension payloads are made of: decimal
//! numbers and fixed runs of text.

use vstd::prelude::*;

verus! {

/// Tells whether a byte is an ASCII decimal digit.
pub open spec fn is_digit(byte: u8) -> bool {
    48 <= byte <= 57
}

/// The decimal digits of a number, in ASCII, without leading zeros.
pub open spec fn decimal(n: nat) -> Seq<u8>
    decreases n,
{
    if n < 10 {
        seq![(48 + n) as u8]
    } else {
        decimal(n / 10).push((48 + n % 10) as u8)
    }
}

/// The number that a run of ASCII digits stands for.
pub open spec fn digits_value(digits: Seq<u8>) -> nat
    decreases digits.len(),
{
    if digits.len() == 0 {
        0
    } else {
        digits_value(digits.drop_last()) * 10 + (digits.last() - 48) as nat
    }
}

/// The first position from `at` on that holds no digit.
pub open spec fn digits_end(bytes: Seq<u8>, at: int) -> int
    decreases bytes.len() - at,
{
    if 0 <= at < bytes.len() && is_digit(bytes[at]) {
        digits_end(bytes, at + 1)
    } else {
        at
    }
}

/// The number written at `at` and the position behind it: the longest run of
/// digits there, which must not be empty, must not start with a needless
/// zero, and must stand for a number of 32 bits.
pub open spec fn spec_read_decimal(bytes: Seq<u8>, at: int) -> Option<(u32, int)> {
    let end = digits_end(bytes, at);
    let run = bytes.subrange(at, end);
    if 0 <= at < end && (end == at + 1 || bytes[at] != 48) && digits_value(run) <= u32::MAX {
        Some((digits_value(run) as u32, end))
    } else {
        None
    }
}

/// Ten to the power of `k`.
pub open spec fn ten_to(k: nat) -> nat
    decreases k,
{
    if k == 0 {
        1
    } else {
        10 * ten_to((k - 1) as nat)
    }
}

/// A number below ten to the `k` has at most `k` digits.
pub proof fn lemma_decimal_len(n: nat, k: nat)
    requires
        k >= 1,
        n < ten_to(k),
    ensures
        1 <= decimal(n).len() <= k,
    decreases k,
{
    if n >= 10 {
        assert(ten_to(1) == 10) by {
            reveal_with_fuel(ten_to, 2);
        }
        assert(k >= 2);
        lemma_decimal_len(n / 10, (k - 1) as nat);
    }
}

/// A number of 32 bits has at most ten digits.
pub proof fn lemma_decimal_len_u32(n: u32)
    ensures
        1 <= decimal(n as nat).len() <= 10,
{
    assert(ten_to(10) == 10_000_000_000) by {
        reveal_with_fuel(ten_to, 11);
    }
    lemma_decimal_len(n as nat, 10);
}

/// The digits of a number are digits, start with a zero only for zero
/// itself, and stand for the number.
pub proof fn lemma_decimal_reads_back(n: nat)
    ensures
        decimal(n).len() >= 1,
        forall|i: int| 0 <= i < decimal(n).len() ==> is_digit(#[trigger] decimal(n)[i]),
        decimal(n).len() == 1 || decimal(n)[0] != 48,
        n > 0 ==> decimal(n)[0] != 48,
        digits_value(decimal(n)) == n,
    decreases n,
{
    if n < 10 {
        assert(decimal(n).drop_last() =~= Seq::<u8>::empty());
        assert(digits_value(decimal(n).drop_last()) == 0);
    } else {
        lemma_decimal_reads_back(n / 10);
        assert(decimal(n).drop_last() =~= decimal(n / 10));
        assert(decimal(n)[0] == decimal(n / 10)[0]);
    }
}

/// A run of digits ends where the first byte that is no digit stands.
pub proof fn lemma_digits_end(bytes: Seq<u8>, at: int, end: int)
    requires
        0 <= at <= end <= bytes.len(),
        forall|i: int| at <= i < end ==> is_digit(#[trigger] bytes[i]),
        end == bytes.len() || !is_digit(bytes[end]),
    ensures
        digits_end(bytes, at) == end,
    decreases end - at,
{
    if at < end {
        lemma_digits_end(bytes, at + 1, end);
    }
}

/// Where the digits of a number stand at `at` and no digit follows them, the
/// number is read back, and reading ends behind them.
pub proof fn lemma_read_decimal_of_decimal(bytes: Seq<u8>, at: int, n: u32)
    requires
        0 <= at,
        at + decimal(n as nat).len() <= bytes.len(),
        bytes.subrange(at, at + decimal(n as nat).len()) == decimal(n as nat),
        at + decimal(n as nat).len() == bytes.len() || !is_digit(
            bytes[at + decimal(n as nat).len()],
        ),
    ensures
        spec_read_decimal(bytes, at) == Some((n, at + decimal(n as nat).len())),
{
    let digits = decimal(n as nat);
    let end = at + digits.len();
    lemma_decimal_reads_back(n as nat);
    assert forall|i: int| at <= i < end implies is_digit(#[trigger] bytes[i]) by {
        assert(bytes[i] == bytes.subrange(at, end)[i - at]);
    }
    lemma_digits_end(bytes, at, end);
    assert(bytes[at] == bytes.subrange(at, end)[0]);
}

/// A run of digits stands for no less than any of its beginnings.
proof fn lemma_digits_value_grows(digits: Seq<u8>, k: int)
    requires
        0 <= k <= digits.len(),
        forall|i: int| 0 <= i < digits.len() ==> is_digit(#[trigger] digits[i]),
    ensures
        digits_value(digits.subrange(0, k)) <= digits_value(digits),
    decreases digits.len() - k,
{
    if k == digits.len() {
        assert(digits.subrange(0, k) =~= digits);
    } else {
        lemma_digits_value_grows(digits.drop_last(), k);
        assert(digits.drop_last().subrange(0, k) =~= digits.subrange(0, k));
    }
}

/// The number of digits that a number is written with.
pub fn decimal_len(n: u32) -> (len: usize)
    ensures
        len == decimal(n as nat).len(),
        1 <= len <= 10,
    decreases n,
{
    proof {
        lemma_decimal_len_u32(n);
    }
    if n < 10 {
        1
    } else {
        1 + decimal_len(n / 10)
    }
}

/// Appends the decimal digits of a number.
pub fn write_decimal(out: &mut Vec<u8>, n: u32)
    ensures
        final(out)@ == old(out)@ + decimal(n as nat),
    decreases n,
{
    if n >= 10 {
        write_decimal(out, n / 10);
    }
    out.push(48 + (n % 10) as u8);
    assert(out@ =~= old(out)@ + decimal(n as nat));
}

/// Reads the number written at `at`, and tells where reading ended.
pub fn read_decimal(bytes: &[u8], at: usize) -> (r: Option<(u32, usize)>)
    ensures
        match r {
            Some((n, end)) => spec_read_decimal(bytes@, at as int) == Some((n, end as int)),
            None => spec_read_decimal(bytes@, at as int) is None,
        },
{
    if at > bytes.len() {
        return None;
    }
    let ghost end = digits_end(bytes@, at as int);
    let mut i: usize = at;
    let mut value: u64 = 0;
    assert(bytes@.subrange(at as int, i as int) =~= Seq::<u8>::empty());
    while i < bytes.len() && bytes[i] >= 48 && bytes[i] <= 57
        invariant
            at <= i <= bytes@.len(),
            forall|j: int| at <= j < i ==> is_digit(#[trigger] bytes@[j]),
            digits_end(bytes@, at as int) == end,
            digits_end(bytes@, i as int) == end,
            value == digits_value(bytes@.subrange(at as int, i as int)),
            value <= u32::MAX,
        decreases bytes@.len() - i,
    {
        let digit: u64 = (bytes[i] - 48) as u64;
        let next: u64 = value * 10 + digit;
        proof {
            let longer = bytes@.subrange(at as int, i + 1);
            assert(longer.drop_last() =~= bytes@.subrange(at as int, i as int));
            assert(next == digits_value(longer));
        }
        if next > u32::MAX as u64 {
            proof {
                assert(digits_end(bytes@, i as int) == digits_end(bytes@, i + 1));
                lemma_digits_end_bounds(bytes@, i as int + 1);
                let shorter = bytes@.subrange(at as int, i + 1);
                let run = bytes@.subrange(at as int, end);
                assert forall|j: int| 0 <= j < run.len() implies is_digit(#[trigger] run[j]) by {
                    if at + j > i {
                        lemma_digits_until_end(bytes@, i as int + 1, at + j);
                    }
                }
                lemma_digits_value_grows(run, i + 1 - at);
                assert(run.subrange(0, i + 1 - at) =~= shorter);
            }
            return None;
        }
        value = next;
        i += 1;
    }
    if i == at {
        return None;
    }
    if i - at > 1 && bytes[at] == 48 {
        return None;
    }
    Some((value as u32, i))
}

/// The run of digits from `at` on ends at or behind `at`, within the bytes.
proof fn lemma_digits_end_bounds(bytes: Seq<u8>, at: int)
    requires
        0 <= at <= bytes.len(),
    ensures
        at <= digits_end(bytes, at) <= bytes.len(),
    decreases bytes.len() - at,
{
    if at < bytes.len() && is_digit(bytes[at]) {
        lemma_digits_end_bounds(bytes, at + 1);
    }
}

/// Every byte from `at` up to the end of the run of digits there is a digit.
proof fn lemma_digits_until_end(bytes: Seq<u8>, at: int, j: int)
    requires
        0 <= at <= bytes.len(),
        at <= j < digits_end(bytes, at),
    ensures
        is_digit(bytes[j]),
    decreases bytes.len() - at,
{
    if at < bytes.len() && is_digit(bytes[at]) {
        if j > at {
            lemma_digits_until_end(bytes, at + 1, j);
        }
    }
}

/// Tells whether the bytes from `at` on start with `text`.
pub open spec fn has_text_at(bytes: Seq<u8>, at: int, text: Seq<u8>) -> bool {
    0 <= at && at + text.len() <= bytes.len() && bytes.subrange(at, at + text.len()) == text
}

/// Tells whether the bytes from `at` on start with `text`.
pub fn starts_with_at(bytes: &[u8], at: usize, text: &[u8]) -> (found: bool)
    ensures
        found == has_text_at(bytes@, at as int, text@),
{
    if at > bytes.len() || text.len() > bytes.len() - at {
        return false;
    }
    let mut i: usize = 0;
    while i < text.len()
        invariant
            i <= text@.len(),
            at + text@.len() <= bytes@.len() <= usize::MAX,
            forall|j: int| 0 <= j < i ==> bytes@[at + j] == text@[j],
        decreases text@.len() - i,
    {
        if bytes[at + i] != text[i] {
            proof {
                assert(bytes@.subrange(at as int, at + text@.len())[i as int] == bytes@[at + i]);
            }
            return false;
        }
        i += 1;
    }
    assert(bytes@.subrange(at as int, at + text@.len()) =~= text@);
    true
}

/// A run of digits that starts with a digit other than zero stands for a
/// number other than zero.
proof fn lemma_digits_value_positive(digits: Seq<u8>)
    requires
        digits.len() >= 1,
        forall|i: int| 0 <= i < digits.len() ==> is_digit(#[trigger] digits[i]),
        digits[0] != 48,
    ensures
        digits_value(digits) >= 1,
{
    lemma_digits_value_grows(digits, 1);
    let first = digits.subrange(0, 1);
    assert(first.drop_last() =~= Seq::<u8>::empty());
    assert(digits_value(first.drop_last()) == 0);
    assert(first.last() == digits[0]);
}

/// A run of digits without a needless leading zero is the way its number is
/// written.
pub proof fn lemma_decimal_of_digits(digits: Seq<u8>)
    requires
        digits.len() >= 1,
        forall|i: int| 0 <= i < digits.len() ==> is_digit(#[trigger] digits[i]),
        digits.len() == 1 || digits[0] != 48,
    ensures
        decimal(digits_value(digits)) == digits,
    decreases digits.len(),
{
    let front = digits.drop_last();
    if digits.len() == 1 {
        assert(front =~= Seq::<u8>::empty());
        assert(digits_value(front) == 0);
        assert(decimal(digits_value(digits)) =~= digits);
    } else {
        assert(front[0] == digits[0]);
        lemma_digits_value_positive(front);
        lemma_decimal_of_digits(front);
        let value = digits_value(digits);
        assert(value / 10 == digits_value(front));
        assert(value % 10 == digits.last() - 48);
        assert(decimal(value) =~= digits);
    }
}

/// What is read as a number is the way that number is written, from where
/// reading began to where it ended.
pub proof fn lemma_read_decimal_is_decimal(bytes: Seq<u8>, at: int)
    requires
        spec_read_decimal(bytes, at) is Some,
    ensures
        ({
            let (n, end) = spec_read_decimal(bytes, at)->Some_0;
            &&& at < end <= bytes.len()
            &&& bytes.subrange(at, end) == decimal(n as nat)
            &&& end == bytes.len() || !is_digit(bytes[end])
        }),
{
    let end = digits_end(bytes, at);
    let run = bytes.subrange(at, end);
    if at > bytes.len() {
        assert(digits_end(bytes, at) == at);
    }
    lemma_digits_end_bounds(bytes, at);
    lemma_digits_end_stops(bytes, at);
    assert forall|i: int| 0 <= i < run.len() implies is_digit(#[trigger] run[i]) by {
        lemma_digits_until_end(bytes, at, at + i);
    }
    lemma_decimal_of_digits(run);
}

/// The run of digits from `at` on ends at the end of the bytes or before a
/// byte that is no digit.
proof fn lemma_digits_end_stops(bytes: Seq<u8>, at: int)
    requires
        0 <= at <= bytes.len(),
    ensures
        digits_end(bytes, at) == bytes.len() || !is_digit(bytes[digits_end(bytes, at)]),
    decreases bytes.len() - at,
{
    if at < bytes.len() && is_digit(bytes[at]) {
        lemma_digits_end_stops(bytes, at + 1);
    }
}

} // verus!
