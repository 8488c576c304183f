//! Standard base64 (RFC 4648 alphabet, `=` padding) for chunk ciphertexts in
//! block messages. Decoding ignores every `=` and reads groups of four
//! digits; a trailing group of one digit, or a character outside the
//! alphabet, is refused.
use vstd::prelude::*;
use vstd::utf8::{encode_utf8, is_ascii_chars};

use crate::text::string_push;

verus! {

/// Digit of a 6-bit value.
pub open spec fn b64_char(v: nat) -> char {
    if v < 26 {
        (65 + v) as char
    } else if v < 52 {
        (97 + (v - 26)) as char
    } else if v < 62 {
        (48 + (v - 52)) as char
    } else if v == 62 {
        '+'
    } else {
        '/'
    }
}

/// Value of a digit byte.
pub open spec fn b64_val(c: u8) -> Option<nat> {
    if 65 <= c <= 90 {
        Some((c - 65) as nat)
    } else if 97 <= c <= 122 {
        Some((c - 97 + 26) as nat)
    } else if 48 <= c <= 57 {
        Some((c - 48 + 52) as nat)
    } else if c == 43 {
        Some(62)
    } else if c == 47 {
        Some(63)
    } else {
        None
    }
}

/// Four characters for up to three bytes (missing bytes count as zero and
/// their positions are padded).
pub open spec fn enc_group(g: Seq<u8>) -> Seq<char> {
    let b0 = g[0] as nat;
    let b1 = if g.len() > 1 { g[1] as nat } else { 0 };
    let b2 = if g.len() > 2 { g[2] as nat } else { 0 };
    let n = b0 * 65536 + b1 * 256 + b2;
    seq![
        b64_char((n / 262144) % 64),
        b64_char((n / 4096) % 64),
        if g.len() > 1 { b64_char((n / 64) % 64) } else { '=' },
        if g.len() > 2 { b64_char(n % 64) } else { '=' },
    ]
}

/// Base64 of a byte string.
pub open spec fn spec_b64_encode(d: Seq<u8>) -> Seq<char>
    decreases d.len(),
{
    if d.len() == 0 {
        seq![]
    } else if d.len() <= 3 {
        enc_group(d)
    } else {
        enc_group(d.take(3)) + spec_b64_encode(d.skip(3))
    }
}

/// Bytes of one group of two to four digit bytes.
pub open spec fn dec_group(g: Seq<u8>) -> Option<Seq<u8>> {
    let v0 = b64_val(g[0]);
    let v1 = b64_val(g[1]);
    let v2 = if g.len() > 2 { b64_val(g[2]) } else { Some(0nat) };
    let v3 = if g.len() > 3 { b64_val(g[3]) } else { Some(0nat) };
    if v0 is None || v1 is None || v2 is None || v3 is None {
        None
    } else {
        let n = v0->0 * 262144 + v1->0 * 4096 + v2->0 * 64 + v3->0;
        let b0 = ((n / 65536) % 256) as u8;
        let b1 = ((n / 256) % 256) as u8;
        let b2 = (n % 256) as u8;
        Some(
            if g.len() == 2 {
                seq![b0]
            } else if g.len() == 3 {
                seq![b0, b1]
            } else {
                seq![b0, b1, b2]
            },
        )
    }
}

/// Decoding of digit bytes with the padding removed.
pub open spec fn dec_groups(b: Seq<u8>) -> Option<Seq<u8>>
    decreases b.len(),
{
    if b.len() == 0 {
        Some(seq![])
    } else if b.len() < 2 {
        None
    } else if b.len() <= 4 {
        dec_group(b)
    } else {
        match (dec_group(b.take(4)), dec_groups(b.skip(4))) {
            (Some(x), Some(y)) => Some(x + y),
            _ => None,
        }
    }
}

/// The bytes of a text with every `=` removed.
pub open spec fn drop_pad(s: Seq<u8>) -> Seq<u8> {
    s.filter(|c: u8| c != 61u8)
}

/// Base64 decoding of a text's bytes.
pub open spec fn spec_b64_decode(s: Seq<u8>) -> Option<Seq<u8>> {
    dec_groups(drop_pad(s))
}

fn digit(v: u32) -> (c: char)
    requires
        v < 64,
    ensures
        c == b64_char(v as nat),
{
    if v < 26 {
        ((65 + v) as u8) as char
    } else if v < 52 {
        ((97 + (v - 26)) as u8) as char
    } else if v < 62 {
        ((48 + (v - 52)) as u8) as char
    } else if v == 62 {
        '+'
    } else {
        '/'
    }
}

proof fn lemma_enc_concat(a: Seq<u8>, b: Seq<u8>)
    requires
        a.len() % 3 == 0,
    ensures
        spec_b64_encode(a + b) == spec_b64_encode(a) + spec_b64_encode(b),
    decreases a.len(),
{
    if a.len() == 0 {
        assert(a + b =~= b);
    } else {
        assert((a + b).take(3) =~= a.take(3));
        assert((a + b).skip(3) =~= a.skip(3) + b);
        lemma_enc_concat(a.skip(3), b);
        if a.len() == 3 {
            assert(a.skip(3) =~= Seq::<u8>::empty());
            assert(a.skip(3) + b =~= b);
            assert(a.take(3) =~= a);
            if b.len() == 0 {
                assert(a + b =~= a);
            }
        }
    }
}

fn encode_group_at(out: &mut String, data: &[u8], i: usize, step: usize)
    requires
        1 <= step <= 3,
        i + step <= data@.len(),
    ensures
        final(out)@ == old(out)@ + enc_group(data@.subrange(i as int, i + step)),
{
    let ghost g = data@.subrange(i as int, i + step);
    let b0 = data[i] as u32;
    let b1: u32 = if step > 1 { data[i + 1] as u32 } else { 0 };
    let b2: u32 = if step > 2 { data[i + 2] as u32 } else { 0 };
    let n = b0 * 65536 + b1 * 256 + b2;
    let c0 = digit((n / 262144) % 64);
    let c1 = digit((n / 4096) % 64);
    let c2 = if step > 1 { digit((n / 64) % 64) } else { '=' };
    let c3 = if step > 2 { digit(n % 64) } else { '=' };
    string_push(out, c0);
    string_push(out, c1);
    string_push(out, c2);
    string_push(out, c3);
    proof {
        assert(g[0] == data@[i as int]);
        if step > 1 {
            assert(g[1] == data@[i + 1]);
        }
        if step > 2 {
            assert(g[2] == data@[i + 2]);
        }
        assert(enc_group(g) =~= seq![c0, c1, c2, c3]);
        assert(final(out)@ =~= old(out)@ + seq![c0, c1, c2, c3]);
    }
}

/// Base64 encoding.
#[verifier::rlimit(30)]
pub fn base64_encode(data: &[u8]) -> (s: String)
    ensures
        s@ == spec_b64_encode(data@),
{
    let mut out = String::new();
    let mut i: usize = 0;
    while i < data.len()
        invariant
            i <= data@.len(),
            i < data@.len() ==> i % 3 == 0,
            out@ == spec_b64_encode(data@.take(i as int)),
        decreases data@.len() - i,
    {
        let left = data.len() - i;
        let step: usize = if left >= 3 { 3 } else { left };
        encode_group_at(&mut out, data, i, step);
        proof {
            lemma_enc_step(data@, i as int, step as int);
        }
        i = i + step;
    }
    proof {
        assert(data@.take(i as int) =~= data@);
    }
    out
}

fn val(c: u8) -> (r: Option<u32>)
    ensures
        match r {
            Some(v) => b64_val(c) == Some(v as nat) && v < 64,
            None => b64_val(c) is None,
        },
{
    if 65 <= c && c <= 90 {
        Some((c - 65) as u32)
    } else if 97 <= c && c <= 122 {
        Some((c - 97 + 26) as u32)
    } else if 48 <= c && c <= 57 {
        Some((c - 48 + 52) as u32)
    } else if c == 43 {
        Some(62)
    } else if c == 47 {
        Some(63)
    } else {
        None
    }
}

proof fn lemma_dec_concat(a: Seq<u8>, b: Seq<u8>)
    requires
        a.len() % 4 == 0,
    ensures
        dec_groups(a + b) == (match (dec_groups(a), dec_groups(b)) {
            (Some(x), Some(y)) => Some(x + y),
            _ => None::<Seq<u8>>,
        }),
    decreases a.len(),
{
    if a.len() == 0 {
        assert(a + b =~= b);
        assert(dec_groups(a) == Some(Seq::<u8>::empty()));
        if let Some(y) = dec_groups(b) {
            assert(Seq::<u8>::empty() + y =~= y);
        }
    } else {
        assert((a + b).take(4) =~= a.take(4));
        assert((a + b).skip(4) =~= a.skip(4) + b);
        lemma_dec_concat(a.skip(4), b);
        if a.len() == 4 {
            assert(a.skip(4) =~= Seq::<u8>::empty());
            assert(a.skip(4) + b =~= b);
            assert(a.take(4) =~= a);
            assert(dec_groups(a.skip(4)) == Some(Seq::<u8>::empty()));
            if b.len() == 0 {
                assert(a + b =~= a);
                if let Some(x) = dec_group(a) {
                    assert(x + Seq::<u8>::empty() =~= x);
                }
            }
        } else {
            if let (Some(x), Some(y)) = (dec_group(a.take(4)), dec_groups(a.skip(4))) {
                if let Some(z) = dec_groups(b) {
                    assert(x + (y + z) =~= (x + y) + z);
                }
            }
        }
    }
}

/// Base64 decoding; `None` for a trailing lone digit or a character outside
/// the alphabet (`=` is skipped wherever it stands).
pub fn base64_decode(s: &str) -> (r: Option<Vec<u8>>)
    ensures
        match r {
            Some(v) => spec_b64_decode(encode_utf8(s@)) == Some(v@),
            None => spec_b64_decode(encode_utf8(s@)) is None,
        },
{
    let raw = s.as_bytes();
    let mut bytes: Vec<u8> = Vec::new();
    let mut i: usize = 0;
    while i < raw.len()
        invariant
            i <= raw@.len(),
            bytes@ == drop_pad(raw@.take(i as int)),
        decreases raw@.len() - i,
    {
        proof {
            assert(raw@.take(i + 1) =~= raw@.take(i as int).push(raw@[i as int]));
        }
        if raw[i] != 61 {
            bytes.push(raw[i]);
        }
        proof {
            lemma_filter_push(raw@.take(i as int), raw@[i as int]);
        }
        i = i + 1;
    }
    proof {
        assert(raw@.take(i as int) =~= raw@);
        assert(raw@ == encode_utf8(s@));
    }
    let mut out: Vec<u8> = Vec::new();
    let mut k: usize = 0;
    while k < bytes.len()
        invariant
            bytes@ == drop_pad(encode_utf8(s@)),
            k <= bytes@.len(),
            k % 4 == 0,
            dec_groups(bytes@.take(k as int)) == Some(out@),
        decreases bytes@.len() - k,
    {
        let left = bytes.len() - k;
        if left < 2 {
            proof {
                lemma_lone_fails(bytes@, k as int);
            }
            return None;
        }
        let glen: usize = if left >= 4 { 4 } else { left };
        if !decode_group_at(&mut out, &bytes, k, glen) {
            proof {
                lemma_group_fails(bytes@, k as int, glen as int);
            }
            return None;
        }
        proof {
            lemma_dec_step(bytes@, k as int, glen as int);
        }
        k = k + glen;
        if glen < 4 {
            proof {
                assert(bytes@.take(k as int) =~= bytes@);
            }
            return Some(out);
        }
    }
    proof {
        assert(bytes@.take(k as int) =~= bytes@);
    }
    Some(out)
}

fn decode_group_at(out: &mut Vec<u8>, bytes: &Vec<u8>, k: usize, glen: usize) -> (ok: bool)
    requires
        2 <= glen <= 4,
        k + glen <= bytes@.len(),
    ensures
        ok == dec_group(bytes@.subrange(k as int, k + glen)) is Some,
        ok ==> final(out)@ == old(out)@ + dec_group(bytes@.subrange(k as int, k + glen))->0,
        !ok ==> final(out)@ == old(out)@,
{
    let len = bytes.len();
    let ghost g = bytes@.subrange(k as int, k + glen);
    proof {
        assert(g[0] == bytes@[k as int]);
        assert(g[1] == bytes@[k + 1]);
        if glen > 2 {
            assert(g[2] == bytes@[k + 2]);
        }
        if glen > 3 {
            assert(g[3] == bytes@[k + 3]);
        }
    }
    let v0 = match val(bytes[k]) {
        Some(v) => v,
        None => return false,
    };
    let v1 = match val(bytes[k + 1]) {
        Some(v) => v,
        None => return false,
    };
    let v2 = if glen > 2 {
        match val(bytes[k + 2]) {
            Some(v) => v,
            None => return false,
        }
    } else {
        0
    };
    let v3 = if glen > 3 {
        match val(bytes[k + 3]) {
            Some(v) => v,
            None => return false,
        }
    } else {
        0
    };
    let n = v0 * 262144 + v1 * 4096 + v2 * 64 + v3;
    let x0 = ((n / 65536) % 256) as u8;
    let x1 = ((n / 256) % 256) as u8;
    let x2 = (n % 256) as u8;
    out.push(x0);
    if glen > 2 {
        out.push(x1);
    }
    if glen > 3 {
        out.push(x2);
    }
    proof {
        if glen == 2 {
            assert(dec_group(g)->0 =~= seq![x0]);
        } else if glen == 3 {
            assert(dec_group(g)->0 =~= seq![x0, x1]);
        } else {
            assert(dec_group(g)->0 =~= seq![x0, x1, x2]);
        }
        assert(final(out)@ =~= old(out)@ + dec_group(g)->0);
    }
    true
}

proof fn lemma_enc_step(d: Seq<u8>, i: int, step: int)
    requires
        0 <= i,
        i % 3 == 0,
        1 <= step <= 3,
        i + step <= d.len(),
    ensures
        spec_b64_encode(d.take(i + step)) == spec_b64_encode(d.take(i)) + enc_group(d.subrange(i, i + step)),
{
    let g = d.subrange(i, i + step);
    assert(d.take(i + step) =~= d.take(i) + g);
    lemma_enc_concat(d.take(i), g);
    assert(spec_b64_encode(g) == enc_group(g));
}

proof fn lemma_dec_step(b: Seq<u8>, k: int, glen: int)
    requires
        0 <= k,
        k % 4 == 0,
        2 <= glen <= 4,
        k + glen <= b.len(),
        dec_groups(b.take(k)) is Some,
        dec_group(b.subrange(k, k + glen)) is Some,
    ensures
        dec_groups(b.take(k + glen)) == Some(dec_groups(b.take(k))->0 + dec_group(b.subrange(k, k + glen))->0),
{
    let g = b.subrange(k, k + glen);
    assert(b.take(k + glen) =~= b.take(k) + g);
    lemma_dec_concat(b.take(k), g);
    assert(dec_groups(g) == dec_group(g));
}

proof fn lemma_lone_fails(b: Seq<u8>, k: int)
    requires
        0 <= k,
        k % 4 == 0,
        b.len() - k == 1,
    ensures
        dec_groups(b) is None,
{
    let rest = b.skip(k);
    assert(b =~= b.take(k) + rest);
    lemma_dec_concat(b.take(k), rest);
}

proof fn lemma_group_fails(b: Seq<u8>, k: int, glen: int)
    requires
        0 <= k,
        k % 4 == 0,
        k + glen <= b.len(),
        glen == (if b.len() - k >= 4 { 4 } else { b.len() - k }),
        glen >= 2,
        dec_group(b.subrange(k, k + glen)) is None,
        dec_groups(b.take(k)) is Some,
    ensures
        dec_groups(b) is None,
{
    let rest = b.skip(k);
    assert(b =~= b.take(k) + rest);
    lemma_dec_concat(b.take(k), rest);
    assert(rest.take(glen) =~= b.subrange(k, k + glen));
    if rest.len() > 4 {
        assert(rest.take(4) =~= b.subrange(k, k + 4));
    } else {
        assert(rest =~= b.subrange(k, k + glen));
    }
}

proof fn lemma_filter_push(s: Seq<u8>, c: u8)
    ensures
        drop_pad(s.push(c)) == (if c != 61u8 {
            drop_pad(s).push(c)
        } else {
            drop_pad(s)
        }),
{
    reveal(Seq::filter);
    assert(s.push(c).drop_last() =~= s);
}

/// The digit bytes (padding left out) of the group encoding of `g`.
pub open spec fn group_digits(g: Seq<u8>) -> Seq<u8> {
    let e = enc_group(g);
    if g.len() == 1 {
        seq![e[0] as u8, e[1] as u8]
    } else if g.len() == 2 {
        seq![e[0] as u8, e[1] as u8, e[2] as u8]
    } else {
        seq![e[0] as u8, e[1] as u8, e[2] as u8, e[3] as u8]
    }
}

/// Digit bytes of a whole encoding.
pub open spec fn enc_digits(d: Seq<u8>) -> Seq<u8>
    decreases d.len(),
{
    if d.len() == 0 {
        seq![]
    } else if d.len() <= 3 {
        group_digits(d)
    } else {
        group_digits(d.take(3)) + enc_digits(d.skip(3))
    }
}

/// Byte of each character (for ASCII text, its UTF-8 encoding).
pub open spec fn ascii_bytes(cs: Seq<char>) -> Seq<u8> {
    Seq::new(cs.len(), |i: int| cs[i] as u8)
}

proof fn lemma_char_val(v: nat)
    requires
        v < 64,
    ensures
        b64_val(b64_char(v) as u8) == Some(v),
        b64_char(v) as u8 != 61u8,
        (b64_char(v) as u32) < 128,
{
}

proof fn lemma_group_arith(b0: u32, b1: u32, b2: u32)
    requires
        b0 < 256,
        b1 < 256,
        b2 < 256,
    ensures
        ({
            let n = b0 * 65536 + b1 * 256 + b2;
            &&& ((n / 262144) % 64) * 262144 + ((n / 4096) % 64) * 4096 + ((n / 64) % 64) * 64 + n % 64 == n
            &&& (n / 65536) % 256 == b0
            &&& (n / 256) % 256 == b1
            &&& n % 256 == b2
            &&& b2 == 0 ==> n % 64 == 0
            &&& b1 == 0 && b2 == 0 ==> (n / 64) % 64 == 0
        }),
{
    assert({
        let n = b0 * 65536 + b1 * 256 + b2;
        &&& ((n / 262144) % 64) * 262144 + ((n / 4096) % 64) * 4096 + ((n / 64) % 64) * 64 + n % 64 == n
        &&& (n / 65536) % 256 == b0
        &&& (n / 256) % 256 == b1
        &&& n % 256 == b2
        &&& b2 == 0 ==> n % 64 == 0
        &&& b1 == 0 && b2 == 0 ==> (n / 64) % 64 == 0
    }) by (bit_vector)
        requires
            b0 < 256,
            b1 < 256,
            b2 < 256,
    ;
}

proof fn lemma_group_roundtrip(g: Seq<u8>)
    requires
        1 <= g.len() <= 3,
    ensures
        dec_group(group_digits(g)) == Some(g),
        drop_pad(ascii_bytes(enc_group(g))) == group_digits(g),
        is_ascii_chars(enc_group(g)),
{
    let b0 = g[0] as u32;
    let b1: u32 = if g.len() > 1 { g[1] as u32 } else { 0 };
    let b2: u32 = if g.len() > 2 { g[2] as u32 } else { 0 };
    lemma_group_arith(b0, b1, b2);
    let n = b0 * 65536 + b1 * 256 + b2;
    let v0 = ((n / 262144) % 64) as nat;
    let v1 = ((n / 4096) % 64) as nat;
    let v2 = ((n / 64) % 64) as nat;
    let v3 = (n % 64) as nat;
    lemma_char_val(v0);
    lemma_char_val(v1);
    lemma_char_val(v2);
    lemma_char_val(v3);
    let e = enc_group(g);
    assert(e[0] == b64_char(v0));
    assert(e[1] == b64_char(v1));
    let gd = group_digits(g);
    let r = dec_group(gd)->0;
    if g.len() == 1 {
        assert(r =~= g);
    } else if g.len() == 2 {
        assert(e[2] == b64_char(v2));
        assert(r =~= g);
    } else {
        assert(e[2] == b64_char(v2));
        assert(e[3] == b64_char(v3));
        assert(r =~= g);
    }
    reveal_with_fuel(Seq::filter, 5);
    let ab = ascii_bytes(e);
    assert(ab.drop_last().drop_last().drop_last().drop_last() =~= Seq::<u8>::empty());
    assert(ab.drop_last().drop_last().drop_last() =~= seq![ab[0]]);
    assert(ab.drop_last().drop_last() =~= seq![ab[0], ab[1]]);
    assert(ab.drop_last() =~= seq![ab[0], ab[1], ab[2]]);
    assert(drop_pad(ab) =~= gd);
    assert(is_ascii_chars(e)) by {
        assert forall|i: int| 0 <= i < e.len() implies '\0' <= #[trigger] e[i] <= '\u{7f}' by {
        }
    }
}

proof fn lemma_enc_digits(d: Seq<u8>)
    ensures
        is_ascii_chars(spec_b64_encode(d)),
        drop_pad(ascii_bytes(spec_b64_encode(d))) == enc_digits(d),
        dec_groups(enc_digits(d)) == Some(d),
    decreases d.len(),
{
    if d.len() == 0 {
        reveal(Seq::filter);
        assert(ascii_bytes(spec_b64_encode(d)) =~= Seq::<u8>::empty());
        assert(is_ascii_chars(spec_b64_encode(d)));
    } else if d.len() <= 3 {
        lemma_group_roundtrip(d);
        assert(dec_groups(group_digits(d)) == dec_group(group_digits(d)));
    } else {
        let g = d.take(3);
        let rest = d.skip(3);
        lemma_group_roundtrip(g);
        lemma_enc_digits(rest);
        let a = enc_group(g);
        let b = spec_b64_encode(rest);
        assert(ascii_bytes(a + b) =~= ascii_bytes(a) + ascii_bytes(b));
        Seq::filter_distributes_over_add(ascii_bytes(a), ascii_bytes(b), |c: u8| c != 61u8);
        assert(is_ascii_chars(a + b)) by {
            assert forall|i: int| 0 <= i < (a + b).len() implies '\0' <= #[trigger] (a + b)[i] <= '\u{7f}' by {
                if i < a.len() {
                    assert((a + b)[i] == a[i]);
                } else {
                    assert((a + b)[i] == b[i - a.len()]);
                }
            }
        }
        lemma_dec_concat(group_digits(g), enc_digits(rest));
        assert(dec_groups(group_digits(g)) == dec_group(group_digits(g)));
        assert(g + rest =~= d);
    }
}

/// Decoding the base64 of a byte string gives it back.
pub proof fn base64_roundtrip_law(d: Seq<u8>)
    ensures
        spec_b64_decode(encode_utf8(spec_b64_encode(d))) == Some(d),
{
    lemma_enc_digits(d);
    let e = spec_b64_encode(d);
    vstd::utf8::is_ascii_chars_encode_utf8(e);
    assert(encode_utf8(e) =~= ascii_bytes(e));
}

} // verus!
