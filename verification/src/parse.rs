//! Numeric parameter parsing for escape sequences.
//!
//! Parameters are ASCII digit runs; parsing folds the digits left to right
//! into a base-10 integer, skipping anything that is not a digit.

use vstd::prelude::*;

verus! {

/// Whether `b` is an ASCII decimal digit.
pub open spec fn is_digit(b: u8) -> bool {
    48 <= b <= 57
}

/// The base-10 value of the digits of `s`, folded left to right; bytes that
/// are not digits are skipped.
pub open spec fn parse_num(s: Seq<u8>) -> nat
    decreases s.len(),
{
    if s.len() == 0 {
        0
    } else {
        let last = s[s.len() - 1];
        let rest = parse_num(s.drop_last());
        if is_digit(last) {
            (rest * 10 + (last - 48)) as nat
        } else {
            rest
        }
    }
}

/// Ten to the `n`th power.
pub open spec fn pow10(n: nat) -> nat
    decreases n,
{
    if n == 0 {
        1
    } else {
        10 * pow10((n - 1) as nat)
    }
}

/// A digit string of length `n` denotes a value below `pow10(n)`.
pub proof fn lemma_parse_num_bound(s: Seq<u8>)
    ensures
        parse_num(s) < pow10(s.len()),
    decreases s.len(),
{
    if s.len() > 0 {
        lemma_parse_num_bound(s.drop_last());
    }
}

/// A run of at most three digits denotes at most 999.
pub proof fn lemma_parse_num_small(s: Seq<u8>)
    requires
        s.len() <= 3,
    ensures
        parse_num(s) <= 999,
{
    lemma_parse_num_bound(s);
    assert(pow10(0) == 1);
    assert(pow10(1) == 10);
    assert(pow10(2) == 100);
    assert(pow10(3) == 1000);
}

/// Folding left to right never shrinks the value: every prefix of `s`
/// denotes at most what all of `s` denotes.
pub proof fn lemma_parse_num_prefix(s: Seq<u8>, i: int)
    requires
        0 <= i <= s.len(),
    ensures
        parse_num(s.take(i)) <= parse_num(s),
    decreases s.len() - i,
{
    if i < s.len() {
        lemma_parse_num_prefix(s, i + 1);
        assert(s.take(i + 1).drop_last() =~= s.take(i));
        assert(s.take(i + 1)[i] == s[i]);
    } else {
        assert(s.take(i) =~= s);
    }
}

/// Parse a decimal number from a byte slice, skipping non-digit bytes.
pub fn parse_number(bytes: &[u8]) -> (n: usize)
    requires
        parse_num(bytes@) <= usize::MAX,
    ensures
        n == parse_num(bytes@),
{
    let mut num: usize = 0;
    let mut i: usize = 0;
    while i < bytes.len()
        invariant
            i <= bytes@.len(),
            num == parse_num(bytes@.take(i as int)),
            parse_num(bytes@) <= usize::MAX,
        decreases bytes@.len() - i,
    {
        let b = bytes[i];
        proof {
            lemma_parse_num_prefix(bytes@, i + 1);
            assert(bytes@.take(i + 1).drop_last() =~= bytes@.take(i as int));
            assert(bytes@.take(i + 1)[i as int] == bytes@[i as int]);
        }
        if b >= 48 && b <= 57 {
            num = num * 10 + (b - 48) as usize;
        }
        i += 1;
    }
    proof {
        assert(bytes@.take(bytes@.len() as int) =~= bytes@);
    }
    num
}

} // verus!
