//! Number formatting used in key-derivation labels, signature bodies and
//! store account names (decimal and fixed-width lowercase hex).
use vstd::prelude::*;

use crate::crypto::hex::hex_char;

verus! {

/// Calls `String::push` (std). Claims: the character is appended.
#[verifier::external_body]
pub(crate) fn string_push(s: &mut String, c: char)
    ensures
        final(s)@ == old(s)@.push(c),
{
    s.push(c);
}

/// Calls `String::push_str` (std). Claims: the text is appended.
#[verifier::external_body]
pub(crate) fn string_push_str(s: &mut String, t: &str)
    ensures
        final(s)@ == old(s)@ + t@,
{
    s.push_str(t);
}

pub open spec fn dec_digit(n: nat) -> char {
    (48 + n) as char
}

/// Decimal digits of a number (no sign, no leading zeros).
pub open spec fn spec_dec(n: nat) -> Seq<char>
    decreases n,
{
    if n < 10 {
        seq![dec_digit(n)]
    } else {
        spec_dec(n / 10) + seq![dec_digit(n % 10)]
    }
}

/// Lowest `k` hex digits of `h`, most significant first, zero-padded.
pub open spec fn spec_hex_fixed(h: nat, k: nat) -> Seq<char>
    decreases k,
{
    if k == 0 {
        seq![]
    } else {
        spec_hex_fixed(h / 16, (k - 1) as nat) + seq![hex_char((h % 16) as u8)]
    }
}

/// Appends the decimal digits of `n`.
pub fn push_dec(s: &mut String, n: u64)
    ensures
        final(s)@ == old(s)@ + spec_dec(n as nat),
    decreases n,
{
    if n < 10 {
        string_push(s, (48 + n as u8) as char);
        proof {
            assert(old(s)@.push(dec_digit(n as nat)) =~= old(s)@ + spec_dec(n as nat));
        }
    } else {
        push_dec(s, n / 10);
        let d = (n % 10) as u8;
        string_push(s, (48 + d) as char);
        proof {
            assert(final(s)@ =~= old(s)@ + spec_dec(n as nat));
        }
    }
}

/// Appends the lowest `k` hex digits of `h`, zero-padded.
pub fn push_hex_fixed(s: &mut String, h: u64, k: u32)
    ensures
        final(s)@ == old(s)@ + spec_hex_fixed(h as nat, k as nat),
    decreases k,
{
    if k > 0 {
        push_hex_fixed(s, h / 16, k - 1);
        let d = (h % 16) as u8;
        let c = if d < 10 {
            (48 + d) as char
        } else {
            (87 + d) as char
        };
        string_push(s, c);
        proof {
            assert(final(s)@ =~= old(s)@ + spec_hex_fixed(h as nat, k as nat));
        }
    } else {
        proof {
            assert(old(s)@ + seq![] =~= old(s)@);
        }
    }
}

proof fn lemma_dec_nonempty(n: nat)
    ensures
        spec_dec(n).len() >= 1,
        n >= 10 ==> spec_dec(n).len() >= 2,
    decreases n,
{
    if n >= 10 {
        lemma_dec_nonempty(n / 10);
    }
}

/// Different numbers have different decimal forms.
pub proof fn lemma_dec_injective(a: nat, b: nat)
    requires
        spec_dec(a) == spec_dec(b),
    ensures
        a == b,
    decreases a,
{
    lemma_dec_nonempty(a);
    lemma_dec_nonempty(b);
    if a < 10 && b < 10 {
        assert(spec_dec(a) == seq![dec_digit(a)]);
        assert(spec_dec(b) == seq![dec_digit(b)]);
        assert(spec_dec(a)[0] == dec_digit(a));
        assert(spec_dec(b)[0] == dec_digit(b));
        assert(dec_digit(a) == dec_digit(b));
        assert(dec_digit(a) as u32 == 48 + a);
        assert(dec_digit(b) as u32 == 48 + b);
    } else if a < 10 || b < 10 {
        assert(spec_dec(a).len() == spec_dec(b).len());
    } else {
        let sa = spec_dec(a);
        let sb = spec_dec(b);
        assert(sa.last() == sb.last());
        assert(dec_digit(a % 10) as u32 == 48 + a % 10);
        assert(dec_digit(b % 10) as u32 == 48 + b % 10);
        assert(sa.drop_last() =~= spec_dec(a / 10));
        assert(sb.drop_last() =~= spec_dec(b / 10));
        lemma_dec_injective(a / 10, b / 10);
    }
}

} // verus!
