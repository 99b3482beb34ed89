//! Numbers as decimal text.

use vstd::prelude::*;

verus! {

/// The decimal digits of `n`, as ASCII, without leading zeros.
pub open spec fn decimal(n: nat) -> Seq<u8>
    decreases n,
{
    if n < 10 {
        seq![(48 + n) as u8]
    } else {
        decimal(n / 10).push((48 + n % 10) as u8)
    }
}

/// `count` zeros, as ASCII.
pub open spec fn zeros(count: nat) -> Seq<u8> {
    Seq::new(count, |i: int| 48u8)
}

/// The decimal digits of `n` with zeros in front up to `width` digits.
pub open spec fn padded(n: nat, width: nat) -> Seq<u8> {
    if decimal(n).len() >= width {
        decimal(n)
    } else {
        zeros((width - decimal(n).len()) as nat) + decimal(n)
    }
}

/// Every digit is a digit, and there is at least one and at most twenty.
pub proof fn lemma_decimal(n: nat)
    ensures
        1 <= decimal(n).len(),
        n <= u64::MAX ==> decimal(n).len() <= 20,
        forall|i: int| 0 <= i < decimal(n).len() ==> 48 <= #[trigger] decimal(n)[i] <= 57,
    decreases n,
{
    if n >= 10 {
        lemma_decimal(n / 10);
        if n <= u64::MAX {
            assert(pow10(20) == 100_000_000_000_000_000_000nat) by {
                reveal_with_fuel(pow10, 21);
            }
            lemma_decimal_len(n, 20);
        }
    }
}

/// A number below ten to the `k` has at most `k` digits.
pub proof fn lemma_decimal_len(n: nat, k: nat)
    requires
        k >= 1,
        n < pow10(k),
    ensures
        decimal(n).len() <= k,
    decreases n,
{
    if n >= 10 {
        if k == 1 {
            assert(pow10(1) == 10) by {
                reveal_with_fuel(pow10, 2);
            }
        } else {
            assert(pow10(k) == 10 * pow10((k - 1) as nat));
            lemma_decimal_len(n / 10, (k - 1) as nat);
        }
    }
}

/// Ten to the `k`.
pub open spec fn pow10(k: nat) -> nat
    decreases k,
{
    if k == 0 {
        1
    } else {
        10 * pow10((k - 1) as nat)
    }
}

/// Adds to `out` the decimal digits of `n`, with zeros in front up to
/// `width` digits.
pub fn push_decimal(out: &mut Vec<u8>, n: u64, width: usize)
    ensures
        final(out)@ == old(out)@ + padded(n as nat, width as nat),
{
    let mut digits: Vec<u8> = Vec::new();
    let mut rest: u64 = n;
    while rest >= 10
        invariant
            decimal(n as nat) == decimal(rest as nat) + digits@.reverse(),
        decreases rest,
    {
        let d = (rest % 10) as u8;
        let ghost before = digits@;
        digits.push(48 + d);
        proof {
            let r = rest as nat;
            assert(decimal(r) == decimal(r / 10).push((48 + r % 10) as u8));
            assert(digits@.reverse() =~= seq![(48 + d) as u8] + before.reverse());
            assert(decimal(r / 10).push((48 + d) as u8) + before.reverse() =~= decimal(r / 10) + (
            seq![(48 + d) as u8] + before.reverse()));
        }
        rest = rest / 10;
    }
    let ghost tail = digits@;
    digits.push(48 + rest as u8);
    proof {
        assert(decimal(rest as nat) == seq![(48 + rest) as u8]);
        assert(digits@.reverse() =~= seq![(48 + rest) as u8] + tail.reverse());
        assert(decimal(n as nat) == digits@.reverse());
    }
    let ghost start = out@;
    let count = digits.len();
    let mut i: usize = count;
    while i < width
        invariant
            count <= i,
            i <= width || i == count,
            out@ == start + zeros((i - count) as nat),
        decreases width - i,
    {
        out.push(48);
        assert(out@ =~= start + zeros((i + 1 - count) as nat));
        i = i + 1;
    }
    let ghost lead = out@;
    let mut j: usize = count;
    while j > 0
        invariant
            j <= count,
            count == digits@.len(),
            out@ == lead + digits@.reverse().subrange(0, count - j),
        decreases j,
    {
        j = j - 1;
        out.push(digits[j]);
        assert(out@ =~= lead + digits@.reverse().subrange(0, count - j));
    }
    proof {
        assert(digits@.reverse().subrange(0, count as int) =~= digits@.reverse());
        assert(zeros(0) =~= Seq::<u8>::empty());
        assert(out@ =~= start + padded(n as nat, width as nat));
    }
}

/// Adds to `out` the bytes of `text`.
pub fn push_bytes(out: &mut Vec<u8>, text: &[u8])
    ensures
        final(out)@ == old(out)@ + text@,
{
    let mut i: usize = 0;
    while i < text.len()
        invariant
            i <= text@.len(),
            out@ == old(out)@ + text@.subrange(0, i as int),
        decreases text@.len() - i,
    {
        out.push(text[i]);
        assert(out@ =~= old(out)@ + text@.subrange(0, i as int + 1));
        i = i + 1;
    }
    assert(text@.subrange(0, text@.len() as int) =~= text@);
}

/// Whether every byte is ASCII.
pub open spec fn is_ascii_bytes(bytes: Seq<u8>) -> bool {
    forall|i: int| 0 <= i < bytes.len() ==> #[trigger] bytes[i] < 128
}

/// The string that the ASCII bytes `bytes` spell. Calls
/// `String::from_utf8`, which accepts every sequence of ASCII bytes and
/// gives the string whose UTF-8 form they are.
#[verifier::external_body]
pub(crate) fn string_of_ascii(bytes: Vec<u8>) -> (s: String)
    requires
        is_ascii_bytes(bytes@),
    ensures
        vstd::utf8::encode_utf8(s@) == bytes@,
{
    match String::from_utf8(bytes) {
        Ok(s) => s,
        Err(_) => String::new(),
    }
}

} // verus!
