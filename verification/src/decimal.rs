//! Unsigned numbers in decimal digits.

use vstd::prelude::*;

verus! {

/// The decimal digits of `n`, without leading zeros.
pub open spec fn digits(n: nat) -> Seq<u8>
    decreases n,
{
    if n < 10 {
        seq![(48 + n) as u8]
    } else {
        digits(n / 10).push((48 + n % 10) as u8)
    }
}

/// The number that a non-empty run of decimal digits stands for.
pub open spec fn number(d: Seq<u8>) -> Option<nat>
    decreases d.len(),
{
    if d.len() == 0 || !(48 <= d.last() <= 57) {
        None
    } else if d.len() == 1 {
        Some((d.last() - 48) as nat)
    } else {
        match number(d.drop_last()) {
            Some(v) => Some(v * 10 + (d.last() - 48) as nat),
            None => None,
        }
    }
}

/// The number that `d` stands for where it fits 64 bits.
pub open spec fn number_u64(d: Seq<u8>) -> Option<u64> {
    match number(d) {
        Some(v) => if v <= u64::MAX {
            Some(v as u64)
        } else {
            None
        },
        None => None,
    }
}

/// The digits of a number stand for that number.
pub proof fn lemma_number_digits(n: nat)
    ensures
        digits(n).len() >= 1,
        number(digits(n)) == Some(n),
    decreases n,
{
    if n >= 10 {
        lemma_number_digits(n / 10);
        assert(digits(n).drop_last() =~= digits(n / 10));
    }
}

/// Where digits stand for a number, so does every non-empty prefix of them,
/// and for one that is no larger.
pub proof fn lemma_number_prefix(d: Seq<u8>, i: int)
    requires
        1 <= i <= d.len(),
        number(d) is Some,
    ensures
        number(d.take(i)) is Some,
        number(d.take(i)).unwrap() <= number(d).unwrap(),
    decreases d.len(),
{
    if i == d.len() {
        assert(d.take(i) =~= d);
    } else {
        assert(d.drop_last().take(i) =~= d.take(i));
        lemma_number_prefix(d.drop_last(), i);
    }
}

/// Appends the decimal digits of `n` to `out`.
pub fn push_digits(out: &mut Vec<u8>, n: u64)
    ensures
        final(out)@ == old(out)@ + digits(n as nat),
    decreases n,
{
    if n >= 10 {
        push_digits(out, n / 10);
    }
    let digit: u8 = (n % 10) as u8;
    out.push(48 + digit);
    assert(final(out)@ =~= old(out)@ + digits(n as nat));
}

/// Reads a run of decimal digits; `None` where `d` is empty, holds another
/// byte, or stands for a number beyond 64 bits.
pub fn read_number(d: &[u8]) -> (r: Option<u64>)
    ensures
        r == number_u64(d@),
{
    let n = d.len();
    if n == 0 {
        return None;
    }
    let mut acc: u64 = 0;
    let mut i: usize = 0;
    while i < n
        invariant
            i <= n,
            n == d@.len(),
            i == 0 ==> acc == 0,
            i >= 1 ==> number(d@.take(i as int)) == Some(acc as nat),
        decreases n - i,
    {
        let c = d[i];
        let ghost prefix = d@.take(i + 1);
        assert(prefix.drop_last() =~= d@.take(i as int));
        assert(prefix.last() == c);
        if c < 48 || c > 57 {
            proof {
                if number(d@) is Some {
                    lemma_number_prefix(d@, i + 1);
                }
            }
            return None;
        }
        let digit: u64 = (c - 48) as u64;
        if acc > 1844674407370955161 || acc * 10 > u64::MAX - digit {
            proof {
                if number(d@) is Some {
                    lemma_number_prefix(d@, i + 1);
                }
            }
            return None;
        }
        acc = acc * 10 + digit;
        i += 1;
    }
    assert(d@.take(n as int) =~= d@);
    Some(acc)
}

} // verus!
