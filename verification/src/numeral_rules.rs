//! What numerals say, read from the left or counted from the right.
use crate::figures::{bytes, grouped, law_grouped_reads_back, short, three_digits};
use crate::text::{digit_char, digits, one_place, signed_digits};
use vstd::prelude::*;

verus! {

/// The number that a row of decimal digits names.
pub open spec fn value(s: Seq<char>) -> nat
    decreases s.len(),
{
    if s.len() == 0 {
        0
    } else {
        (10 * value(s.drop_last()) + (s.last() as int - '0' as int)) as nat
    }
}

/// Whether a text is a numeral: decimal digits, without a zero in front of others.
pub open spec fn is_numeral(s: Seq<char>) -> bool {
    &&& s.len() > 0
    &&& forall|i: int| 0 <= i < s.len() ==> '0' <= #[trigger] s[i] <= '9'
    &&& s.len() > 1 ==> s[0] != '0'
}

/// The numeral of a number reads back as the number, and has no needless zeros.
pub proof fn law_numeral_reads_back(n: nat)
    ensures
        is_numeral(digits(n)),
        value(digits(n)) == n,
        n == 0 <==> digits(n)[0] == '0',
    decreases n,
{
    reveal_with_fuel(value, 2);
    let d = digit_char(n % 10);
    assert('0' <= d <= '9' && d as int - '0' as int == n % 10);
    if n >= 10 {
        let front = digits(n / 10);
        law_numeral_reads_back(n / 10);
        assert(digits(n).drop_last() =~= front);
        assert(digits(n)[0] == front[0]);
    } else {
        assert(digits(n).drop_last() =~= Seq::<char>::empty());
    }
}

/// A negative number is written as a minus sign and the numeral of its magnitude, any other as its
/// numeral.
pub proof fn law_signed_numeral_reads_back(n: int)
    ensures
        n >= 0 ==> is_numeral(signed_digits(n)) && value(signed_digits(n)) == n,
        n < 0 ==> signed_digits(n).len() > 1 && signed_digits(n)[0] == '-' && is_numeral(signed_digits(n).skip(1))
            && value(signed_digits(n).skip(1)) == -n,
{
    if n < 0 {
        law_numeral_reads_back((-n) as nat);
        assert(signed_digits(n).skip(1) =~= digits((-n) as nat));
    } else {
        law_numeral_reads_back(n as nat);
    }
}

/// A number of tenths is written as a numeral, a point and one digit.
pub proof fn law_one_place_reads_back(tenths: nat)
    ensures
        ({
            let s = one_place(tenths);
            let n = s.len() - 2;
            &&& n > 0
            &&& s[n] == '.'
            &&& '0' <= s[n + 1] <= '9'
            &&& is_numeral(s.take(n))
            &&& 10 * value(s.take(n)) + (s[n + 1] as int - '0' as int) == tenths
        }),
{
    law_numeral_reads_back(tenths / 10);
    let s = one_place(tenths);
    assert(s.take(s.len() - 2) =~= digits(tenths / 10));
    let d = digit_char(tenths % 10);
    assert('0' <= d <= '9' && d as int - '0' as int == tenths % 10);
}

/// Counted from the right, every fourth character of a grouped numeral is a comma and no other is.
pub proof fn law_commas_in_groups_of_three(n: nat, i: int)
    requires
        0 <= i < grouped(n).len(),
    ensures
        grouped(n)[grouped(n).len() - 1 - i] == ',' <==> i % 4 == 3,
        !(grouped(n)[grouped(n).len() - 1 - i] == ',') ==> '0' <= grouped(n)[grouped(n).len() - 1 - i] <= '9',
        grouped(n)[0] != ',',
    decreases n,
{
    let s = grouped(n);
    if n < 1000 {
        law_numeral_reads_back(n);
        assert(digits(n).len() <= 3) by {
            reveal_with_fuel(digits, 3);
        }
    } else {
        let front = grouped(n / 1000);
        assert(s.len() == front.len() + 4);
        assert(front.len() > 0) by {
            lemma_grouped_not_empty(n / 1000);
        }
        assert(s[0] == front[0]);
        law_commas_in_groups_of_three(n / 1000, 0);
        if i >= 4 {
            law_commas_in_groups_of_three(n / 1000, i - 4);
            assert(s[s.len() - 1 - i] == front[front.len() - 1 - (i - 4)]);
        } else if i < 3 {
            assert(s[s.len() - 1 - i] == three_digits(n)[2 - i]);
        }
    }
}

proof fn lemma_grouped_not_empty(n: nat)
    ensures
        grouped(n).len() > 0,
{
    if n < 1000 {
        law_numeral_reads_back(n);
    }
}

/// A grouped numeral without its commas reads back as the number.
pub proof fn law_grouped_numeral_reads_back(n: nat)
    ensures
        value(grouped(n).filter(|c: char| c != ',')) == n,
{
    law_grouped_reads_back(n);
    law_numeral_reads_back(n);
}

/// A count below ten thousand is shown in full. From a hundred thousand to a million it is shown in whole
/// thousands.
pub proof fn law_short_counts(n: nat)
    ensures
        n < 10_000 ==> is_numeral(short(n)) && value(short(n)) == n,
        100_000 <= n < 1_000_000 ==> short(n).last() == 'K' && is_numeral(short(n).drop_last()) && value(
            short(n).drop_last(),
        ) == n / 1000,
        10_000 <= n < 1_000_000 ==> short(n).last() == 'K',
        n >= 1_000_000 ==> short(n).last() == 'M',
        (10_000 <= n < 100_000 || n >= 1_000_000) ==> short(n).len() >= 4 && short(n)[short(n).len() - 3] == '.',
{
    reveal_strlit("K");
    reveal_strlit("M");
    law_numeral_reads_back(n);
    law_numeral_reads_back(n / 1000);
    if 100_000 <= n < 1_000_000 {
        assert(short(n).drop_last() =~= digits(n / 1000));
    } else if n >= 1_000_000 {
        let tenths = crate::double::decimal_digits(crate::figures::ratio(n, 1_000_000), 10);
        law_one_place_reads_back(tenths);
    } else if n >= 10_000 {
        let tenths = crate::double::decimal_digits(crate::figures::ratio(n, 1_000), 10);
        law_one_place_reads_back(tenths);
    }
}

/// A size below 1024 bytes is shown in full, with the unit behind it; larger ones go by 1024 from unit to
/// unit.
pub proof fn law_byte_sizes(n: nat)
    ensures
        ({
            let s = bytes(n);
            let unit = if n < 1024 {
                " B"@
            } else if n < 1024 * 1024 {
                " KB"@
            } else if n < 1024 * 1024 * 1024 {
                " MB"@
            } else {
                " GB"@
            };
            &&& s.len() > unit.len()
            &&& s.skip(s.len() - unit.len()) == unit
            &&& n < 1024 ==> is_numeral(s.take(s.len() - 2)) && value(s.take(s.len() - 2)) == n
        }),
{
    reveal_strlit(" B");
    law_numeral_reads_back(n);
    let s = bytes(n);
    if n >= 1_073_741_824 {
        let tenths = crate::double::decimal_digits(crate::figures::ratio(n, 1_073_741_824), 10);
        law_one_place_reads_back(tenths);
        assert(s.skip(s.len() - " GB"@.len()) =~= " GB"@);
    } else if n >= 1_048_576 {
        law_numeral_reads_back(crate::double::decimal_digits(crate::figures::ratio(n, 1_048_576), 1));
        assert(s.skip(s.len() - " MB"@.len()) =~= " MB"@);
    } else if n >= 1024 {
        law_numeral_reads_back(crate::double::decimal_digits(crate::figures::ratio(n, 1024), 1));
        assert(s.skip(s.len() - " KB"@.len()) =~= " KB"@);
    } else {
        assert(s.skip(s.len() - " B"@.len()) =~= " B"@);
        assert(s.take(s.len() - 2) =~= digits(n));
    }
}

} // verus!
