//! Hex encoding of binary key material (lowercase), and its decoding.
use vstd::prelude::*;
use vstd::string::*;
use vstd::utf8::*;

use crate::text::string_push;

verus! {

/// Lowercase hex digit of a nibble.
pub open spec fn hex_char(n: u8) -> char {
    if n < 10 {
        (48 + n) as char
    } else {
        (87 + n) as char
    }
}

/// Two lowercase hex digits per byte, high nibble first.
pub open spec fn spec_hex_encode(d: Seq<u8>) -> Seq<char>
    decreases d.len(),
{
    if d.len() == 0 {
        seq![]
    } else {
        spec_hex_encode(d.drop_last()) + seq![hex_char(d.last() / 16), hex_char(d.last() % 16)]
    }
}

/// Value of one hex digit byte (either case).
pub open spec fn hex_val(b: u8) -> Option<u8> {
    if 48 <= b <= 57 {
        Some((b - 48) as u8)
    } else if 97 <= b <= 102 {
        Some((b - 87) as u8)
    } else if 65 <= b <= 70 {
        Some((b - 55) as u8)
    } else {
        None
    }
}

/// Value of a two-byte group: both bytes must be hex digits (either case).
pub open spec fn pair_val(a: u8, b: u8) -> Option<u8> {
    match (hex_val(a), hex_val(b)) {
        (Some(x), Some(y)) => Some((x * 16 + y) as u8),
        _ => None,
    }
}

/// Decoding of a byte string read two bytes at a time.
pub open spec fn spec_hex_pairs(b: Seq<u8>) -> Option<Seq<u8>>
    decreases b.len(),
{
    if b.len() == 0 {
        Some(seq![])
    } else if b.len() < 2 {
        None
    } else {
        match (spec_hex_pairs(b.take(b.len() - 2)), pair_val(b[b.len() - 2], b[b.len() - 1])) {
            (Some(x), Some(v)) => Some(x.push(v)),
            _ => None,
        }
    }
}

/// What `hex_decode` returns for a string: `None` when its UTF-8 length is odd
/// or some byte is not a hex digit.
pub open spec fn spec_hex_decode(s: Seq<char>) -> Option<Seq<u8>> {
    let b = encode_utf8(s);
    if b.len() % 2 != 0 {
        None
    } else {
        spec_hex_pairs(b)
    }
}

fn nibble_char(n: u8) -> (c: char)
    requires
        n < 16,
    ensures
        c == hex_char(n),
{
    if n < 10 {
        (48 + n) as char
    } else {
        (87 + n) as char
    }
}

pub(crate) proof fn lemma_hex_encode_len(d: Seq<u8>)
    ensures
        spec_hex_encode(d).len() == 2 * d.len(),
    decreases d.len(),
{
    if d.len() > 0 {
        lemma_hex_encode_len(d.drop_last());
    }
}

proof fn lemma_hex_encode_ascii(d: Seq<u8>)
    ensures
        is_ascii_chars(spec_hex_encode(d)),
    decreases d.len(),
{
    if d.len() > 0 {
        lemma_hex_encode_ascii(d.drop_last());
        lemma_hex_encode_len(d.drop_last());
        let s = spec_hex_encode(d);
        let p = spec_hex_encode(d.drop_last());
        assert forall|i| 0 <= i < s.len() implies '\0' <= #[trigger] s[i] <= '\u{7f}' by {
            if i < p.len() {
                assert(s[i] == p[i]);
            }
        }
    }
}

/// Hex encoding (lowercase, two digits per byte).
pub fn hex_encode(data: &[u8]) -> (s: String)
    ensures
        s@ == spec_hex_encode(data@),
        s@.len() == 2 * data@.len(),
        is_ascii_chars(s@),
{
    let mut s = String::new();
    let mut i: usize = 0;
    while i < data.len()
        invariant
            i <= data@.len(),
            s@ == spec_hex_encode(data@.take(i as int)),
        decreases data@.len() - i,
    {
        let b = data[i];
        string_push(&mut s, nibble_char(b / 16));
        string_push(&mut s, nibble_char(b % 16));
        proof {
            assert(data@.take(i + 1).drop_last() =~= data@.take(i as int));
        }
        i = i + 1;
    }
    proof {
        assert(data@.take(data@.len() as int) =~= data@);
        lemma_hex_encode_len(data@);
        lemma_hex_encode_ascii(data@);
    }
    s
}

fn hex_val_exec(b: u8) -> (r: Option<u8>)
    ensures
        r == hex_val(b),
        r matches Some(v) ==> v < 16,
{
    if 48 <= b && b <= 57 {
        Some(b - 48)
    } else if 97 <= b && b <= 102 {
        Some(b - 87)
    } else if 65 <= b && b <= 70 {
        Some(b - 55)
    } else {
        None
    }
}

fn pair_val_exec(a: u8, b: u8) -> (r: Option<u8>)
    ensures
        r == pair_val(a, b),
{
    match (hex_val_exec(a), hex_val_exec(b)) {
        (Some(x), Some(y)) => Some(x * 16 + y),
        _ => None,
    }
}

proof fn lemma_pairs_prefix_none(b: Seq<u8>, k: int)
    requires
        0 <= k <= b.len(),
        k % 2 == 0,
        b.len() % 2 == 0,
        spec_hex_pairs(b.take(k)) is None,
    ensures
        spec_hex_pairs(b) is None,
    decreases b.len() - k,
{
    if k < b.len() {
        let b2 = b.take(k + 2);
        assert(b2.take(b2.len() - 2) =~= b.take(k));
        lemma_pairs_prefix_none(b, k + 2);
    } else {
        assert(b.take(k) =~= b);
    }
}

/// Hex decoding over the UTF-8 bytes of `s`; `None` for an odd length or any
/// character that is not a hex digit `[0-9a-fA-F]`.
pub fn hex_decode(s: &str) -> (res: Option<Vec<u8>>)
    ensures
        match res {
            Some(v) => spec_hex_decode(s@) == Some(v@),
            None => spec_hex_decode(s@) is None,
        },
{
    let b = s.as_bytes();
    proof {
        assert(b@ == encode_utf8(s@));
    }
    if b.len() % 2 != 0 {
        return None;
    }
    let n = b.len() / 2;
    let mut out: Vec<u8> = Vec::new();
    let mut i: usize = 0;
    while i < n
        invariant
            n * 2 == b@.len(),
            b@.len() <= usize::MAX,
            b@ == encode_utf8(s@),
            i <= n,
            spec_hex_pairs(b@.take(2 * i)) == Some(out@),
        decreases n - i,
    {
        let v = pair_val_exec(b[2 * i], b[2 * i + 1]);
        let ghost b2 = b@.take(2 * i + 2);
        proof {
            assert(b2.take(b2.len() - 2) =~= b@.take(2 * i));
            assert(b2[b2.len() - 2] == b@[2 * i]);
            assert(b2[b2.len() - 1] == b@[2 * i + 1]);
        }
        match v {
            Some(x) => {
                out.push(x);
            },
            None => {
                proof {
                    lemma_pairs_prefix_none(b@, 2 * i + 2);
                }
                return None;
            },
        }
        i = i + 1;
    }
    proof {
        assert(b@.take(2 * n) =~= b@);
    }
    Some(out)
}

proof fn lemma_hex_char_val(n: u8)
    requires
        n < 16,
    ensures
        hex_val(hex_char(n) as u8) == Some(n),
{
}

proof fn lemma_hex_pairs_of_encoding(d: Seq<u8>)
    ensures
        spec_hex_pairs(encode_utf8(spec_hex_encode(d))) == Some(d),
    decreases d.len(),
{
    lemma_hex_encode_ascii(d);
    lemma_hex_encode_len(d);
    let s = spec_hex_encode(d);
    is_ascii_chars_encode_utf8(s);
    let b = encode_utf8(s);
    if d.len() > 0 {
        let p = spec_hex_encode(d.drop_last());
        lemma_hex_encode_ascii(d.drop_last());
        lemma_hex_encode_len(d.drop_last());
        is_ascii_chars_encode_utf8(p);
        lemma_hex_pairs_of_encoding(d.drop_last());
        let hi = d.last() / 16;
        let lo = d.last() % 16;
        lemma_hex_char_val(hi);
        lemma_hex_char_val(lo);
        assert(b.take(b.len() - 2) =~= encode_utf8(p)) by {
            assert forall|i| 0 <= i < p.len() implies #[trigger] b.take(b.len() - 2)[i] == encode_utf8(p)[i] by {
                assert(s[i] == p[i]);
            }
        }
        assert(b[b.len() - 2] == hex_char(hi) as u8) by {
            assert(s[s.len() - 2] == hex_char(hi));
        }
        assert(b[b.len() - 1] == hex_char(lo) as u8) by {
            assert(s[s.len() - 1] == hex_char(lo));
        }
        assert(d.drop_last().push(d.last()) =~= d);
    } else {
        assert(b.len() == 0);
    }
}

proof fn lemma_pairs_some_iff(b: Seq<u8>)
    requires
        b.len() % 2 == 0,
    ensures
        spec_hex_pairs(b) is Some <==> (forall|i: int| 0 <= i < b.len() ==> (#[trigger] hex_val(b[i])) is Some),
        spec_hex_pairs(b) matches Some(v) ==> v.len() * 2 == b.len(),
    decreases b.len(),
{
    if b.len() > 0 {
        let p = b.take(b.len() - 2);
        lemma_pairs_some_iff(p);
        if spec_hex_pairs(b) is Some {
            assert forall|i: int| 0 <= i < b.len() implies (#[trigger] hex_val(b[i])) is Some by {
                if i < b.len() - 2 {
                    assert(p[i] == b[i]);
                }
            }
        }
        if forall|i: int| 0 <= i < b.len() ==> (#[trigger] hex_val(b[i])) is Some {
            assert forall|i: int| 0 <= i < p.len() implies (#[trigger] hex_val(p[i])) is Some by {
                assert(p[i] == b[i]);
                assert(hex_val(b[i]) is Some);
            }
            assert(hex_val(b[b.len() - 2]) is Some);
            assert(hex_val(b[b.len() - 1]) is Some);
        }
    }
}

/// `hex_decode` succeeds exactly when the string's UTF-8 length is even and
/// every byte is a hex digit `[0-9a-fA-F]` (so any other character, ASCII or
/// not, gives `None`); it then gives one byte per two characters.
pub proof fn hex_decode_accepts_only_hex_digits(s: Seq<char>)
    ensures
        spec_hex_decode(s) is Some <==> (encode_utf8(s).len() % 2 == 0 && forall|i: int|
            0 <= i < encode_utf8(s).len() ==> (#[trigger] hex_val(encode_utf8(s)[i])) is Some),
        spec_hex_decode(s) matches Some(v) ==> v.len() * 2 == encode_utf8(s).len(),
{
    let b = encode_utf8(s);
    if b.len() % 2 == 0 {
        lemma_pairs_some_iff(b);
    }
}

/// An ASCII hex digit `[0-9a-fA-F]`.
pub open spec fn is_hex_char(c: char) -> bool {
    (c as u32) < 128 && hex_val(c as u8) is Some
}

/// The first UTF-8 byte of a character is a hex digit only when the
/// character is one.
proof fn lemma_first_byte(c: char)
    ensures
        hex_val(encode_scalar(c as u32)[0]) is Some <==> is_hex_char(c),
        encode_scalar(c as u32).len() >= 1,
{
    let u = c as u32;
    char_is_scalar(c);
    if has_width_1_encoding(u) {
        assert(u as u8 == leading_byte_width_1(u)) by (bit_vector)
            requires
                has_width_1_encoding(u),
        ;
    } else if has_width_2_encoding(u) {
        let b = leading_byte_width_2(u);
        assert(b >= 0xC0) by (bit_vector)
            requires
                b == 0xC0 | ((u >> 6) & 0x1F) as u8,
        ;
    } else if has_width_3_encoding(u) {
        let b = leading_byte_width_3(u);
        assert(b >= 0xC0) by (bit_vector)
            requires
                b == 0xE0 | ((u >> 12) & 0x0F) as u8,
        ;
    } else {
        let b = leading_byte_width_4(u);
        assert(b >= 0xC0) by (bit_vector)
            requires
                b == 0xF0 | ((u >> 18) & 0x7) as u8,
        ;
    }
}

/// A character that is not a hex digit puts a byte that is not one into the
/// encoding.
proof fn lemma_non_hex_byte(s: Seq<char>, i: int)
    requires
        0 <= i < s.len(),
        !is_hex_char(s[i]),
    ensures
        exists|j: int| 0 <= j < encode_utf8(s).len() && (#[trigger] hex_val(encode_utf8(s)[j])) is None,
    decreases s.len(),
{
    let e = encode_scalar(s[0] as u32);
    let t = encode_utf8(s.drop_first());
    assert(encode_utf8(s) == e + t);
    lemma_first_byte(s[0]);
    if i == 0 {
        assert(encode_utf8(s)[0] == e[0]);
        assert(hex_val(encode_utf8(s)[0]) is None);
    } else {
        assert(s.drop_first()[i - 1] == s[i]);
        lemma_non_hex_byte(s.drop_first(), i - 1);
        let j = choose|j: int| 0 <= j < t.len() && (#[trigger] hex_val(t[j])) is None;
        assert(encode_utf8(s)[e.len() + j] == t[j]);
        assert(hex_val(encode_utf8(s)[e.len() + j]) is None);
    }
}

/// `hex_decode` succeeds exactly on strings of even length whose characters
/// are all ASCII hex digits `[0-9a-fA-F]` (so `"+f"` is refused); it then
/// gives one byte per two characters, the value of each pair in order.
pub proof fn hex_decode_accepts_only_hex_chars(s: Seq<char>)
    ensures
        spec_hex_decode(s) is Some <==> (s.len() % 2 == 0 && forall|i: int|
            0 <= i < s.len() ==> #[trigger] is_hex_char(s[i])),
        spec_hex_decode(s) matches Some(v) ==> v.len() * 2 == s.len() && forall|k: int|
            0 <= k < v.len() ==> #[trigger] v[k] == pair_val(s[2 * k] as u8, s[2 * k + 1] as u8)->0,
{
    hex_decode_accepts_only_hex_digits(s);
    let b = encode_utf8(s);
    if forall|i: int| 0 <= i < s.len() ==> #[trigger] is_hex_char(s[i]) {
        assert(is_ascii_chars(s)) by {
            assert forall|i| 0 <= i < s.len() implies '\0' <= #[trigger] s[i] <= '\u{7f}' by {
                assert(is_hex_char(s[i]));
                let c = s[i];
                let u = c as u32;
                char_u32_cast(c, u);
                assert((u as char) <= '\u{7f}');
            }
        }
        is_ascii_chars_encode_utf8(s);
        assert forall|i: int| 0 <= i < b.len() implies (#[trigger] hex_val(b[i])) is Some by {
            assert(is_hex_char(s[i]));
        }
        if b.len() % 2 == 0 {
            lemma_pairs_values(b);
            let v = spec_hex_decode(s)->0;
            assert forall|k: int| 0 <= k < v.len() implies #[trigger] v[k] == pair_val(
                s[2 * k] as u8,
                s[2 * k + 1] as u8,
            )->0 by {
                assert(b[2 * k] == s[2 * k] as u8);
                assert(b[2 * k + 1] == s[2 * k + 1] as u8);
            }
        }
    } else {
        let i = choose|i: int| 0 <= i < s.len() && !#[trigger] is_hex_char(s[i]);
        lemma_non_hex_byte(s, i);
    }
}

/// Each decoded byte is the value of its pair.
proof fn lemma_pairs_values(b: Seq<u8>)
    requires
        b.len() % 2 == 0,
        spec_hex_pairs(b) is Some,
    ensures
        forall|k: int|
            0 <= k < spec_hex_pairs(b)->0.len() ==> #[trigger] spec_hex_pairs(b)->0[k] == pair_val(
                b[2 * k],
                b[2 * k + 1],
            )->0,
        spec_hex_pairs(b)->0.len() * 2 == b.len(),
    decreases b.len(),
{
    if b.len() > 0 {
        let p = b.take(b.len() - 2);
        lemma_pairs_values(p);
        let v = spec_hex_pairs(b)->0;
        let w = spec_hex_pairs(p)->0;
        assert forall|k: int| 0 <= k < v.len() implies #[trigger] v[k] == pair_val(b[2 * k], b[2 * k + 1])->0 by {
            if k < w.len() {
                assert(p[2 * k] == b[2 * k]);
                assert(p[2 * k + 1] == b[2 * k + 1]);
            }
        }
    }
}

/// Decoding a hex encoding gives back the bytes.
pub proof fn hex_roundtrip(d: Seq<u8>)
    ensures
        spec_hex_decode(spec_hex_encode(d)) == Some(d),
{
    lemma_hex_encode_ascii(d);
    lemma_hex_encode_len(d);
    is_ascii_chars_encode_utf8(spec_hex_encode(d));
    lemma_hex_pairs_of_encoding(d);
}

} // verus!
