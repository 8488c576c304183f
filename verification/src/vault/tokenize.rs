//! Search tokenizer: Latin words are split on non-alphanumerics (lowercase,
//! at least two characters); runs of CJK characters yield sliding bigrams (a
//! lone CJK character is a token of its own). At most 10000 tokens are taken
//! from one text, so an index cannot be inflated without bound.
use vstd::prelude::*;
use vstd::utf8::is_ascii_chars;

use crate::text::string_push;

verus! {

/// Cap on the tokens taken from one text.
pub const MAX_TOKENS_PER_FILE: usize = 10000;

/// What `str::to_lowercase` gives for a text (Unicode lowercase mapping).
pub uninterp spec fn spec_lowercase(s: Seq<char>) -> Seq<char>;

/// Lowercase of an ASCII character: `A`..`Z` become `a`..`z`, the rest stay.
pub open spec fn ascii_lower_char(c: char) -> char {
    if 65 <= (c as u32) <= 90 {
        ((c as u32) + 32) as char
    } else {
        c
    }
}

/// Calls `str::to_lowercase` (std). Claims that the result is a function of
/// the text, and that on ASCII text it maps `A`..`Z` to `a`..`z` and keeps
/// every other character (the Unicode lowercase mapping of the ASCII range);
/// the rest of the Unicode case tables are not restated here.
#[verifier::external_body]
fn to_lowercase(s: &str) -> (r: String)
    ensures
        r@ == spec_lowercase(s@),
        is_ascii_chars(s@) ==> r@ == s@.map_values(|c: char| ascii_lower_char(c)),
{
    s.to_lowercase()
}

/// CJK unified ideographs and extension A.
pub open spec fn is_cjk(c: char) -> bool {
    (0x4E00 <= c as u32 <= 0x9FFF) || (0x3400 <= c as u32 <= 0x4DBF)
}

/// ASCII letter or digit.
pub open spec fn is_ascii_alnum(c: char) -> bool {
    (0x30 <= c as u32 <= 0x39) || (0x41 <= c as u32 <= 0x5A) || (0x61 <= c as u32 <= 0x7A)
}

/// A token list cut to the cap.
pub open spec fn capped(out: Seq<Seq<char>>) -> Seq<Seq<char>> {
    if out.len() <= MAX_TOKENS_PER_FILE {
        out
    } else {
        out.take(MAX_TOKENS_PER_FILE as int)
    }
}

/// Tokens a finished Latin run contributes: itself when at least two long
/// (and the cap is not reached).
pub open spec fn latin_flushed(out: Seq<Seq<char>>, latin: Seq<char>) -> Seq<Seq<char>> {
    if latin.len() >= 2 && out.len() < MAX_TOKENS_PER_FILE {
        out.push(latin)
    } else {
        out
    }
}

/// Tokens a finished CJK run contributes: its bigrams, or itself when alone.
pub open spec fn cjk_tokens(cjk: Seq<char>) -> Seq<Seq<char>> {
    if cjk.len() >= 2 {
        Seq::new((cjk.len() - 1) as nat, |i: int| seq![cjk[i], cjk[i + 1]])
    } else if cjk.len() == 1 {
        seq![cjk]
    } else {
        seq![]
    }
}

/// Scanner state: tokens so far, pending Latin run, pending CJK run.
pub type TokState = (Seq<Seq<char>>, Seq<char>, Seq<char>);

/// One character of input.
pub open spec fn tok_step(st: TokState, c: char) -> TokState {
    if is_cjk(c) {
        (latin_flushed(st.0, st.1), seq![], st.2.push(c))
    } else {
        let out = capped(st.0 + cjk_tokens(st.2));
        if is_ascii_alnum(c) {
            (out, st.1.push(c), seq![])
        } else {
            (latin_flushed(out, st.1), seq![], seq![])
        }
    }
}

/// State after the first `n` characters; input is ignored once the cap on
/// tokens has been reached.
pub open spec fn tok_upto(cs: Seq<char>, n: nat) -> TokState
    decreases n,
{
    if n == 0 {
        (seq![], seq![], seq![])
    } else {
        let st = tok_upto(cs, (n - 1) as nat);
        if st.0.len() >= MAX_TOKENS_PER_FILE {
            st
        } else {
            tok_step(st, cs[n - 1])
        }
    }
}

/// Tokens of an already lowercased text.
pub open spec fn spec_tokens(cs: Seq<char>) -> Seq<Seq<char>> {
    let st = tok_upto(cs, cs.len());
    latin_flushed(capped(st.0 + cjk_tokens(st.2)), st.1)
}

proof fn lemma_tok_upto_capped(cs: Seq<char>, n: nat)
    requires
        n <= cs.len(),
    ensures
        tok_upto(cs, n).0.len() <= MAX_TOKENS_PER_FILE,
    decreases n,
{
    if n > 0 {
        lemma_tok_upto_capped(cs, (n - 1) as nat);
    }
}

/// No text yields more than `MAX_TOKENS_PER_FILE` tokens.
pub proof fn tokens_are_capped(cs: Seq<char>)
    ensures
        spec_tokens(cs).len() <= MAX_TOKENS_PER_FILE,
{
    lemma_tok_upto_capped(cs, cs.len());
}

proof fn lemma_cjk_prefix(cs: Seq<char>, k: nat)
    requires
        k <= cs.len(),
        forall|i: int| 0 <= i < cs.len() ==> #[trigger] is_cjk(cs[i]),
    ensures
        tok_upto(cs, k) == (Seq::<Seq<char>>::empty(), Seq::<char>::empty(), cs.take(k as int)),
    decreases k,
{
    if k > 0 {
        lemma_cjk_prefix(cs, (k - 1) as nat);
        assert(is_cjk(cs[k - 1]));
        assert(cs.take(k - 1).push(cs[k - 1]) =~= cs.take(k as int));
    } else {
        assert(cs.take(0) =~= Seq::<char>::empty());
    }
}

/// A text that is one run of CJK characters yields its sliding bigrams, in
/// order: for `n >= 2` characters the tokens are `c[i] c[i+1]` for every
/// `i`, `n - 1` of them (up to the cap of `MAX_TOKENS_PER_FILE`); a single
/// character is a token of its own.
pub proof fn cjk_run_gives_sliding_bigrams(cs: Seq<char>)
    requires
        forall|i: int| 0 <= i < cs.len() ==> #[trigger] is_cjk(cs[i]),
    ensures
        cs.len() >= 2 ==> spec_tokens(cs).len() == (if cs.len() - 1 <= MAX_TOKENS_PER_FILE {
            cs.len() - 1
        } else {
            MAX_TOKENS_PER_FILE as int
        }),
        cs.len() >= 2 ==> forall|i: int|
            0 <= i < spec_tokens(cs).len() ==> #[trigger] spec_tokens(cs)[i] == seq![cs[i], cs[i + 1]],
        cs.len() == 1 ==> spec_tokens(cs) == seq![cs],
{
    lemma_cjk_prefix(cs, cs.len());
    assert(cs.take(cs.len() as int) =~= cs);
    let t = cjk_tokens(cs);
    assert(Seq::<Seq<char>>::empty() + t =~= t);
    if cs.len() == 1 {
        assert(spec_tokens(cs) =~= seq![cs]);
    }
}

proof fn lemma_latin_prefix(cs: Seq<char>, k: nat)
    requires
        k <= cs.len(),
        forall|i: int| 0 <= i < cs.len() ==> #[trigger] is_ascii_alnum(cs[i]),
    ensures
        tok_upto(cs, k) == (Seq::<Seq<char>>::empty(), cs.take(k as int), Seq::<char>::empty()),
    decreases k,
{
    if k > 0 {
        lemma_latin_prefix(cs, (k - 1) as nat);
        assert(is_ascii_alnum(cs[k - 1]));
        assert(!is_cjk(cs[k - 1]));
        assert(Seq::<Seq<char>>::empty() + cjk_tokens(Seq::<char>::empty()) =~= Seq::<Seq<char>>::empty());
        assert(cs.take(k - 1).push(cs[k - 1]) =~= cs.take(k as int));
    } else {
        assert(cs.take(0) =~= Seq::<char>::empty());
    }
}

/// A text that is one word of ASCII letters and digits is a token of its
/// own when it is at least two characters long, and yields nothing when
/// shorter.
pub proof fn latin_word_is_one_token(cs: Seq<char>)
    requires
        forall|i: int| 0 <= i < cs.len() ==> #[trigger] is_ascii_alnum(cs[i]),
    ensures
        spec_tokens(cs) == (if cs.len() >= 2 {
            seq![cs]
        } else {
            Seq::<Seq<char>>::empty()
        }),
{
    lemma_latin_prefix(cs, cs.len());
    assert(cs.take(cs.len() as int) =~= cs);
    assert(Seq::<Seq<char>>::empty() + cjk_tokens(Seq::<char>::empty()) =~= Seq::<Seq<char>>::empty());
    if cs.len() >= 2 {
        assert(Seq::<Seq<char>>::empty().push(cs) =~= seq![cs]);
    }
}

proof fn lemma_latin_from(cs: Seq<char>, start: nat, out0: Seq<Seq<char>>, k: nat)
    requires
        start + k <= cs.len(),
        tok_upto(cs, start) == (out0, Seq::<char>::empty(), Seq::<char>::empty()),
        out0.len() < MAX_TOKENS_PER_FILE,
        forall|i: int| start <= i < start + k ==> #[trigger] is_ascii_alnum(cs[i]),
    ensures
        tok_upto(cs, start + k) == (out0, cs.subrange(start as int, (start + k) as int), Seq::<char>::empty()),
    decreases k,
{
    if k > 0 {
        lemma_latin_from(cs, start, out0, (k - 1) as nat);
        let j = start + k - 1;
        assert(is_ascii_alnum(cs[j]));
        assert(out0 + cjk_tokens(Seq::<char>::empty()) =~= out0);
        assert(cs.subrange(start as int, j as int).push(cs[j]) =~= cs.subrange(start as int, (start + k) as int));
    } else {
        assert(cs.subrange(start as int, start as int) =~= Seq::<char>::empty());
    }
}

proof fn lemma_cjk_from(cs: Seq<char>, start: nat, out0: Seq<Seq<char>>, k: nat)
    requires
        start + k <= cs.len(),
        tok_upto(cs, start) == (out0, Seq::<char>::empty(), Seq::<char>::empty()),
        out0.len() < MAX_TOKENS_PER_FILE,
        forall|i: int| start <= i < start + k ==> #[trigger] is_cjk(cs[i]),
    ensures
        tok_upto(cs, start + k) == (out0, Seq::<char>::empty(), cs.subrange(start as int, (start + k) as int)),
    decreases k,
{
    if k > 0 {
        lemma_cjk_from(cs, start, out0, (k - 1) as nat);
        let j = start + k - 1;
        assert(is_cjk(cs[j]));
        assert(cs.subrange(start as int, j as int).push(cs[j]) =~= cs.subrange(start as int, (start + k) as int));
    } else {
        assert(cs.subrange(start as int, start as int) =~= Seq::<char>::empty());
    }
}

/// Two words of ASCII letters and digits with a separator between them (a
/// character that is neither a letter, a digit nor CJK) are two tokens, in
/// order.
pub proof fn separator_splits_words(w: Seq<char>, c: char, v: Seq<char>)
    requires
        w.len() >= 2,
        v.len() >= 2,
        forall|i: int| 0 <= i < w.len() ==> #[trigger] is_ascii_alnum(w[i]),
        forall|i: int| 0 <= i < v.len() ==> #[trigger] is_ascii_alnum(v[i]),
        !is_ascii_alnum(c),
        !is_cjk(c),
    ensures
        spec_tokens(w + seq![c] + v) == seq![w, v],
{
    let t = w + seq![c] + v;
    let e = Seq::<Seq<char>>::empty();
    assert(tok_upto(t, 0) == (e, Seq::<char>::empty(), Seq::<char>::empty()));
    assert forall|i: int| 0 <= i < 0 + w.len() implies #[trigger] is_ascii_alnum(t[i]) by {
        assert(t[i] == w[i]);
    }
    lemma_latin_from(t, 0, e, w.len());
    assert(t.subrange(0, w.len() as int) =~= w);
    let n1 = w.len() + 1;
    assert(t[w.len() as int] == c);
    assert(e + cjk_tokens(Seq::<char>::empty()) =~= e);
    assert(tok_upto(t, n1) == (seq![w], Seq::<char>::empty(), Seq::<char>::empty())) by {
        assert(e.push(w) =~= seq![w]);
    }
    assert forall|i: int| n1 <= i < n1 + v.len() implies #[trigger] is_ascii_alnum(t[i]) by {
        assert(t[i] == v[i - n1]);
    }
    lemma_latin_from(t, n1, seq![w], v.len());
    assert(t.subrange(n1 as int, (n1 + v.len()) as int) =~= v);
    assert(t.len() == n1 + v.len());
    assert(seq![w] + cjk_tokens(Seq::<char>::empty()) =~= seq![w]);
    assert(seq![w].push(v) =~= seq![w, v]);
}

/// A run of CJK characters followed by a word of ASCII letters and digits:
/// the run's sliding bigrams, then the word.
pub proof fn cjk_run_then_word(k: Seq<char>, w: Seq<char>)
    requires
        2 <= k.len() <= MAX_TOKENS_PER_FILE,
        w.len() >= 2,
        forall|i: int| 0 <= i < k.len() ==> #[trigger] is_cjk(k[i]),
        forall|i: int| 0 <= i < w.len() ==> #[trigger] is_ascii_alnum(w[i]),
    ensures
        spec_tokens(k + w).len() == k.len(),
        forall|i: int| 0 <= i < k.len() - 1 ==> #[trigger] spec_tokens(k + w)[i] == seq![k[i], k[i + 1]],
        spec_tokens(k + w)[k.len() - 1] == w,
{
    let t = k + w;
    let e = Seq::<Seq<char>>::empty();
    assert(tok_upto(t, 0) == (e, Seq::<char>::empty(), Seq::<char>::empty()));
    assert forall|i: int| 0 <= i < 0 + k.len() implies #[trigger] is_cjk(t[i]) by {
        assert(t[i] == k[i]);
    }
    lemma_cjk_from(t, 0, e, k.len());
    assert(t.subrange(0, k.len() as int) =~= k);
    let b = cjk_tokens(k);
    assert(e + b =~= b);
    let n1 = k.len() + 1;
    let c0 = t[k.len() as int];
    assert(c0 == w[0]);
    assert(is_ascii_alnum(c0));
    assert(!is_cjk(c0));
    assert(tok_upto(t, n1) == (b, seq![c0], Seq::<char>::empty())) by {
        assert(Seq::<char>::empty().push(c0) =~= seq![c0]);
    }
    // continue the word from its second character
    assert forall|i: int| n1 <= i < t.len() implies #[trigger] is_ascii_alnum(t[i]) by {
        assert(t[i] == w[i - k.len()]);
    }
    lemma_latin_word_rest(t, n1, b, seq![c0], (t.len() - n1) as nat);
    assert(seq![c0] + t.subrange(n1 as int, t.len() as int) =~= w);
    assert(b + cjk_tokens(Seq::<char>::empty()) =~= b);
}

proof fn lemma_latin_word_rest(cs: Seq<char>, start: nat, out0: Seq<Seq<char>>, latin0: Seq<char>, k: nat)
    requires
        start + k <= cs.len(),
        tok_upto(cs, start) == (out0, latin0, Seq::<char>::empty()),
        out0.len() < MAX_TOKENS_PER_FILE,
        forall|i: int| start <= i < start + k ==> #[trigger] is_ascii_alnum(cs[i]),
    ensures
        tok_upto(cs, start + k) == (out0, latin0 + cs.subrange(start as int, (start + k) as int), Seq::<char>::empty()),
    decreases k,
{
    if k > 0 {
        lemma_latin_word_rest(cs, start, out0, latin0, (k - 1) as nat);
        let j = start + k - 1;
        assert(is_ascii_alnum(cs[j]));
        assert(out0 + cjk_tokens(Seq::<char>::empty()) =~= out0);
        assert((latin0 + cs.subrange(start as int, j as int)).push(cs[j]) =~= latin0 + cs.subrange(
            start as int,
            (start + k) as int,
        ));
    } else {
        assert(latin0 + cs.subrange(start as int, start as int) =~= latin0);
    }
}

/// The texts of a list of strings.
pub open spec fn strings_view(v: Seq<String>) -> Seq<Seq<char>> {
    v.map_values(|s: String| s@)
}

fn chars_to_string(v: &Vec<char>) -> (s: String)
    ensures
        s@ == v@,
{
    let mut s = String::new();
    let mut i: usize = 0;
    while i < v.len()
        invariant
            i <= v@.len(),
            s@ == v@.take(i as int),
        decreases v@.len() - i,
    {
        string_push(&mut s, v[i]);
        proof {
            assert(v@.take(i as int).push(v@[i as int]) =~= v@.take(i + 1));
        }
        i = i + 1;
    }
    proof {
        assert(v@.take(v@.len() as int) =~= v@);
    }
    s
}

fn flush_latin(out: &mut Vec<String>, latin: &mut Vec<char>)
    ensures
        strings_view(final(out)@) == latin_flushed(strings_view(old(out)@), old(latin)@),
        final(latin)@ == Seq::<char>::empty(),
{
    if latin.len() >= 2 && out.len() < MAX_TOKENS_PER_FILE {
        let s = chars_to_string(latin);
        out.push(s);
        proof {
            assert(strings_view(out@) =~= strings_view(old(out)@).push(old(latin)@));
        }
    }
    latin.clear();
}

fn flush_cjk(out: &mut Vec<String>, cjk: &mut Vec<char>)
    requires
        old(out)@.len() <= MAX_TOKENS_PER_FILE,
    ensures
        strings_view(final(out)@) == capped(strings_view(old(out)@) + cjk_tokens(old(cjk)@)),
        final(cjk)@ == Seq::<char>::empty(),
{
    let ghost o = strings_view(out@);
    let ghost cs = cjk@;
    if cjk.len() >= 2 {
        let mut i: usize = 0;
        while i < cjk.len() - 1 && out.len() < MAX_TOKENS_PER_FILE
            invariant
                cjk@ == cs,
                cs.len() >= 2,
                o.len() <= MAX_TOKENS_PER_FILE,
                i <= cs.len() - 1,
                o.len() + i <= MAX_TOKENS_PER_FILE,
                out@.len() == o.len() + i,
                strings_view(out@) == o + cjk_tokens(cs).take(i as int),
            decreases cs.len() - i,
        {
            let mut s = String::new();
            string_push(&mut s, cjk[i]);
            string_push(&mut s, cjk[i + 1]);
            let ghost before = strings_view(out@);
            out.push(s);
            proof {
                assert(s@ =~= seq![cs[i as int], cs[i + 1]]);
                assert(strings_view(out@) =~= before.push(s@));
                assert(cjk_tokens(cs).take(i + 1) =~= cjk_tokens(cs).take(i as int).push(s@));
            }
            i = i + 1;
        }
        proof {
            let t = cjk_tokens(cs);
            if i == cs.len() - 1 {
                assert(t.take(i as int) =~= t);
            } else {
                assert(o.len() + i == MAX_TOKENS_PER_FILE);
                assert((o + t).take(MAX_TOKENS_PER_FILE as int) =~= o + t.take(i as int));
            }
        }
    } else if cjk.len() == 1 {
        if out.len() < MAX_TOKENS_PER_FILE {
            let mut s = String::new();
            string_push(&mut s, cjk[0]);
            out.push(s);
            proof {
                assert(s@ =~= cs);
                assert(strings_view(out@) =~= o + cjk_tokens(cs));
            }
        } else {
            proof {
                assert((o + cjk_tokens(cs)).take(MAX_TOKENS_PER_FILE as int) =~= o);
            }
        }
    } else {
        proof {
            assert(strings_view(out@) =~= o + cjk_tokens(cs));
        }
    }
    cjk.clear();
}

/// Tokens of a text that is already lowercase.
pub fn tokenize_lowered(lower: &str) -> (r: Vec<String>)
    ensures
        strings_view(r@) == spec_tokens(lower@),
        r@.len() <= MAX_TOKENS_PER_FILE,
{
    let mut out: Vec<String> = Vec::new();
    let mut latin: Vec<char> = Vec::new();
    let mut cjk: Vec<char> = Vec::new();
    let ghost cs = lower@;
    proof {
        broadcast use vstd::string::axiom_spec_iter;
    }
    for c in it: lower.chars()
        invariant
            cs == lower@,
            it.seq() == cs,
            (strings_view(out@), latin@, cjk@) == tok_upto(cs, it.index() as nat),
            out@.len() <= MAX_TOKENS_PER_FILE,
    {
        let ghost i = it.index();
        proof {
            lemma_tok_upto_capped(cs, (i + 1) as nat);
        }
        if out.len() < MAX_TOKENS_PER_FILE {
            let u = c as u32;
            let ghost st = (strings_view(out@), latin@, cjk@);
            if (0x4E00 <= u && u <= 0x9FFF) || (0x3400 <= u && u <= 0x4DBF) {
                flush_latin(&mut out, &mut latin);
                cjk.push(c);
            } else {
                flush_cjk(&mut out, &mut cjk);
                if (0x30 <= u && u <= 0x39) || (0x41 <= u && u <= 0x5A) || (0x61 <= u && u <= 0x7A) {
                    latin.push(c);
                } else {
                    flush_latin(&mut out, &mut latin);
                }
            }
            proof {
                assert(tok_upto(cs, (i + 1) as nat) == tok_step(st, cs[i]));
                assert((strings_view(out@), latin@, cjk@) == tok_step(st, c));
            }
        }
    }
    flush_cjk(&mut out, &mut cjk);
    flush_latin(&mut out, &mut latin);
    proof {
        tokens_are_capped(cs);
    }
    out
}

/// Splits a text into search tokens (lowercased first).
pub fn tokenize(text: &str) -> (r: Vec<String>)
    ensures
        strings_view(r@) == spec_tokens(spec_lowercase(text@)),
        is_ascii_chars(text@) ==> strings_view(r@) == spec_tokens(text@.map_values(|c: char| ascii_lower_char(c))),
        r@.len() <= MAX_TOKENS_PER_FILE,
{
    let lower = to_lowercase(text);
    tokenize_lowered(lower.as_str())
}

/// Token set for imported content (name, tags and a text sample, joined by
/// the caller).
pub fn content_tokens(text: &str) -> (r: Vec<String>)
    ensures
        strings_view(r@) == spec_tokens(spec_lowercase(text@)),
        r@.len() <= MAX_TOKENS_PER_FILE,
{
    tokenize(text)
}

/// Bytes of an imported file that are sampled for content words.
pub const CONTENT_SAMPLE_LEN: usize = 1048576;

/// Leading bytes of the sample that are probed for a NUL byte.
pub const TEXT_PROBE_LEN: usize = 8192;

/// The probed prefix of a sample.
pub open spec fn text_probe(sample: Seq<u8>) -> Seq<u8> {
    if sample.len() < TEXT_PROBE_LEN {
        sample
    } else {
        sample.take(TEXT_PROBE_LEN as int)
    }
}

/// Whether a content sample is text: no NUL byte among its first
/// `TEXT_PROBE_LEN` bytes (a binary file gives no content words).
pub fn sample_is_text(sample: &[u8]) -> (b: bool)
    ensures
        b == !text_probe(sample@).contains(0u8),
{
    let n: usize = if sample.len() < TEXT_PROBE_LEN { sample.len() } else { TEXT_PROBE_LEN };
    let ghost probe = sample@.take(n as int);
    proof {
        assert(probe =~= text_probe(sample@));
    }
    let mut i: usize = 0;
    while i < n
        invariant
            n <= sample@.len(),
            i <= n,
            probe == sample@.take(n as int),
            probe == text_probe(sample@),
            forall|j: int| 0 <= j < i ==> sample@[j] != 0u8,
        decreases n - i,
    {
        if sample[i] == 0 {
            proof {
                assert(probe[i as int] == 0u8);
                assert(probe.contains(0u8));
            }
            return false;
        }
        i = i + 1;
    }
    proof {
        if probe.contains(0u8) {
            let j = choose|j: int| 0 <= j < probe.len() && probe[j] == 0u8;
            assert(sample@[j] == 0u8);
        }
    }
    true
}

} // verus!
