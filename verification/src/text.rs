//! Byte strings: copying, comparing, joining, and decimal numerals.

use vstd::prelude::*;

verus! {

/// A fresh vector holding the bytes of `bytes`.
pub fn copy_bytes(bytes: &[u8]) -> (copy: Vec<u8>)
    ensures
        copy@ == bytes@,
{
    let mut copy: Vec<u8> = Vec::new();
    let mut i: usize = 0;
    while i < bytes.len()
        invariant
            i <= bytes.len(),
            copy@ == bytes@.subrange(0, i as int),
        decreases bytes.len() - i,
    {
        copy.push(bytes[i]);
        i += 1;
        assert(copy@ =~= bytes@.subrange(0, i as int));
    }
    assert(bytes@.subrange(0, i as int) =~= bytes@);
    copy
}

/// Whether two byte strings hold the same bytes.
pub fn same_bytes(left: &[u8], right: &[u8]) -> (same: bool)
    ensures
        same == (left@ == right@),
{
    if left.len() != right.len() {
        return false;
    }
    let mut i: usize = 0;
    while i < left.len()
        invariant
            i <= left.len(),
            left.len() == right.len(),
            left@.subrange(0, i as int) == right@.subrange(0, i as int),
        decreases left.len() - i,
    {
        if left[i] != right[i] {
            return false;
        }
        i += 1;
        assert(left@.subrange(0, i as int) =~= left@.subrange(0, i - 1).push(left@[i - 1]));
        assert(right@.subrange(0, i as int) =~= right@.subrange(0, i - 1).push(right@[i - 1]));
    }
    assert(left@.subrange(0, i as int) =~= left@);
    assert(right@.subrange(0, i as int) =~= right@);
    true
}

/// Appends the bytes of `tail` to `buffer`.
pub fn append_bytes(buffer: &mut Vec<u8>, tail: &[u8])
    ensures
        final(buffer)@ == old(buffer)@ + tail@,
{
    let mut i: usize = 0;
    while i < tail.len()
        invariant
            i <= tail.len(),
            buffer@ == old(buffer)@ + tail@.subrange(0, i as int),
        decreases tail.len() - i,
    {
        buffer.push(tail[i]);
        i += 1;
        assert(buffer@ =~= old(buffer)@ + tail@.subrange(0, i as int));
    }
    assert(tail@.subrange(0, i as int) =~= tail@);
}

/// The decimal digits of `n`, most significant first, as ASCII bytes.
pub open spec fn decimal(n: nat) -> Seq<u8>
    decreases n,
{
    if n < 10 {
        seq![(48 + n) as u8]
    } else {
        decimal(n / 10).push((48 + n % 10) as u8)
    }
}

/// Appends the decimal numeral of `n` to `buffer`.
pub fn append_decimal(buffer: &mut Vec<u8>, n: usize)
    ensures
        final(buffer)@ == old(buffer)@ + decimal(n as nat),
{
    // Collect the digits least significant first, then append them reversed.
    let mut digits: Vec<u8> = Vec::new();
    let mut rest: usize = n;
    while rest >= 10
        invariant
            decimal(n as nat) == decimal(rest as nat) + digits@.reverse(),
        decreases rest,
    {
        let d: u8 = (rest % 10) as u8;
        let ghost before = digits@;
        digits.push(48 + d);
        assert(digits@.reverse() =~= seq![(48 + d) as u8] + before.reverse());
        assert(decimal(rest as nat) == decimal((rest / 10) as nat).push((48 + rest % 10) as u8));
        assert(decimal((rest / 10) as nat).push((48 + d) as u8) + before.reverse()
            =~= decimal((rest / 10) as nat) + (seq![(48 + d) as u8] + before.reverse()));
        rest = rest / 10;
    }
    let ghost before = digits@;
    digits.push(48 + (rest as u8));
    assert(digits@.reverse() =~= seq![(48 + rest) as u8] + before.reverse());
    assert(decimal(rest as nat) =~= seq![(48 + rest) as u8]);
    assert(decimal(n as nat) =~= digits@.reverse());
    let mut i: usize = digits.len();
    while i > 0
        invariant
            i <= digits.len(),
            buffer@ == old(buffer)@ + digits@.reverse().subrange(0, digits.len() - i),
        decreases i,
    {
        i -= 1;
        buffer.push(digits[i]);
        assert(buffer@ =~= old(buffer)@ + digits@.reverse().subrange(0, digits.len() - i));
    }
    assert(digits@.reverse().subrange(0, digits.len() as int) =~= digits@.reverse());
}

} // verus!
