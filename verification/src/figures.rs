//! Figures for people: counters with separators, compact magnitudes, byte sizes and rates.
use crate::double::{decimal_digits, floor, of_int, quotient, seconds, Binary, Double};
use crate::text::{decimal, decimal_one_place, digit_char, digits, lemma_digits_are_digits, one_place};
use vstd::prelude::*;

verus! {

/// The last three digits of `n`, with leading zeros.
pub open spec fn three_digits(n: nat) -> Seq<char> {
    seq![digit_char(n / 100 % 10), digit_char(n / 10 % 10), digit_char(n % 10)]
}

/// The decimal numeral of `n` with a comma before every group of three digits.
pub open spec fn grouped(n: nat) -> Seq<char>
    decreases n,
{
    if n < 1000 {
        digits(n)
    } else {
        grouped(n / 1000).push(',') + three_digits(n)
    }
}

/// 31,422: thousands separators.
pub fn fmt_exact(n: u64) -> (r: String)
    ensures
        r@ == grouped(n as nat),
{
    fmt_grouped(n as u128)
}

/// Thousands separators in a number of any size.
pub fn fmt_grouped(n: u128) -> (r: String)
    ensures
        r@ == grouped(n as nat),
    decreases n,
{
    if n < 1000 {
        return decimal(n);
    }
    let mut out = fmt_grouped(n / 1000);
    out.push(',');
    let ghost head = out@;
    out.push((48u8 + (n / 100 % 10) as u8) as char);
    out.push((48u8 + (n / 10 % 10) as u8) as char);
    out.push((48u8 + (n % 10) as u8) as char);
    assert(out@ =~= head + three_digits(n as nat));
    out
}

/// A text without its commas.
pub open spec fn without_commas(s: Seq<char>) -> Seq<char> {
    s.filter(|c: char| c != ',')
}

/// Leaving out the separators gives the plain numeral back.
pub proof fn law_grouped_reads_back(n: nat)
    ensures
        without_commas(grouped(n)) == digits(n),
    decreases n,
{
    let keep = |c: char| c != ',';
    if n < 1000 {
        lemma_digits_are_digits(n);
        lemma_filter_all(digits(n), keep);
    } else {
        let head = grouped(n / 1000);
        let tail = three_digits(n);
        law_grouped_reads_back(n / 1000);
        Seq::filter_distributes_over_add(head.push(','), tail, keep);
        lemma_filter_all(tail, keep);
        assert(head.push(',') =~= head + seq![',']);
        Seq::filter_distributes_over_add(head, seq![','], keep);
        reveal_with_fuel(Seq::filter, 2);
        assert(seq![','].filter(keep) =~= Seq::<char>::empty()) by {
            assert(seq![','].drop_last() =~= Seq::<char>::empty());
        }
        assert(digits(n) =~= digits(n / 1000) + tail) by {
            let m = n / 10;
            let k = m / 10;
            assert(k / 10 == n / 1000 && m % 10 == n / 10 % 10 && k % 10 == n / 100 % 10);
            assert(digits(n) == digits(m).push(digit_char(n % 10)));
            assert(digits(m) == digits(k).push(digit_char(m % 10)));
            assert(digits(k) == digits(n / 1000).push(digit_char(k % 10)));
        }
    }
}

proof fn lemma_filter_all(s: Seq<char>, keep: spec_fn(char) -> bool)
    requires
        forall|i: int| 0 <= i < s.len() ==> keep(#[trigger] s[i]),
    ensures
        s.filter(keep) == s,
    decreases s.len(),
{
    reveal(Seq::filter);
    if s.len() > 0 {
        lemma_filter_all(s.drop_last(), keep);
        assert(s =~= s.drop_last().push(s.last()));
    }
}

/// The quotient of two integers, both converted to binary64 first.
pub open spec fn ratio(n: nat, d: nat) -> Binary {
    quotient(of_int(n), of_int(d))
}

/// The ratio `n / d`.
fn divide_counter(n: u64, d: u64) -> (r: Double)
    requires
        d > 0,
    ensures
        r@ == ratio(n as nat, d as nat),
        r.wf(),
        r.exp <= 66,
{
    Double::of_u64(n).divide(Double::of_u64(d))
}

/// The compact form of a counter.
pub open spec fn short(n: nat) -> Seq<char> {
    if n >= 1_000_000 {
        one_place(decimal_digits(ratio(n, 1_000_000), 10)) + "M"@
    } else if n >= 100_000 {
        digits(n / 1_000) + "K"@
    } else if n >= 10_000 {
        one_place(decimal_digits(ratio(n, 1_000), 10)) + "K"@
    } else {
        digits(n)
    }
}

/// 892K, 1.2M: compact magnitude.
pub fn fmt_short(n: u64) -> (r: String)
    ensures
        r@ == short(n as nat),
{
    if n >= 1_000_000 {
        let mut out = decimal_one_place(divide_counter(n, 1_000_000).to_digits(10));
        out.append("M");
        out
    } else if n >= 100_000 {
        let mut out = decimal((n / 1_000) as u128);
        out.append("K");
        out
    } else if n >= 10_000 {
        let mut out = decimal_one_place(divide_counter(n, 1_000).to_digits(10));
        out.append("K");
        out
    } else {
        decimal(n as u128)
    }
}

/// The human-readable form of a byte size.
pub open spec fn bytes(n: nat) -> Seq<char> {
    if n >= 1_073_741_824 {
        one_place(decimal_digits(ratio(n, 1_073_741_824), 10)) + " GB"@
    } else if n >= 1_048_576 {
        digits(decimal_digits(ratio(n, 1_048_576), 1)) + " MB"@
    } else if n >= 1024 {
        digits(decimal_digits(ratio(n, 1024), 1)) + " KB"@
    } else {
        digits(n) + " B"@
    }
}

/// 2.3 GB, 812 MB: human-readable byte size.
pub fn fmt_bytes(n: u64) -> (r: String)
    ensures
        r@ == bytes(n as nat),
{
    if n >= 1_073_741_824 {
        let mut out = decimal_one_place(divide_counter(n, 1_073_741_824).to_digits(10));
        out.append(" GB");
        out
    } else if n >= 1_048_576 {
        let mut out = decimal(divide_counter(n, 1_048_576).to_digits(1));
        out.append(" MB");
        out
    } else if n >= 1024 {
        let mut out = decimal(divide_counter(n, 1024).to_digits(1));
        out.append(" KB");
        out
    } else {
        let mut out = decimal(n as u128);
        out.append(" B");
        out
    }
}

/// Items per second over a span of time: the integer part of the quotient, or the largest counter
/// where that is smaller.
pub open spec fn per_second(count: nat, nanos: nat) -> nat {
    let whole = floor(quotient(of_int(count), seconds(nanos)));
    if whole <= u64::MAX {
        whole
    } else {
        u64::MAX as nat
    }
}

/// Items per second over a span of time.
pub fn rate(count: u64, nanos: u64) -> (r: u64)
    requires
        nanos > 0,
    ensures
        r == per_second(count as nat, nanos as nat),
{
    Double::of_u64(count).divide(Double::seconds(nanos)).to_u64()
}

} // verus!
