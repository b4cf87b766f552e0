//! Splits text into search tokens: lower-cased runs of ASCII word characters,
//! and overlapping two-character windows over CJK text.
use vstd::prelude::*;
use crate::models::{lemma_strings_view_push, strings_view};
use crate::text::{ascii_lower, chars_of, is_ascii_alnum, spec_ascii_lower, spec_is_ascii_alnum, string_from_chars};

verus! {

/// Characters that make up a word token: ASCII letters and digits, `_` and `-`.
pub open spec fn spec_is_word_char(c: char) -> bool {
    spec_is_ascii_alnum(c) || c == '_' || c == '-'
}

/// Characters of the CJK ranges that the tokenizer splits into bigrams.
pub open spec fn spec_is_cjk(c: char) -> bool {
    let v = c as u32;
    ||| (0x4E00 <= v && v <= 0x9FFF)
    ||| (0x3400 <= v && v <= 0x4DBF)
    ||| (0x3000 <= v && v <= 0x303F)
    ||| (0xFF00 <= v && v <= 0xFFEF)
}

/// Whether `c` is a code point of the CJK Unified Ideographs block.
pub open spec fn spec_is_chinese_char(c: char) -> bool {
    0x4E00 <= (c as u32) && (c as u32) <= 0x9FFF
}

/// The tokens emitted so far and the word being collected, after the first
/// `i` characters of `s` have been read.
pub open spec fn scan_state(s: Seq<char>, i: nat) -> (Seq<Seq<char>>, Seq<char>)
    decreases i,
{
    if i == 0 || i > s.len() {
        (Seq::empty(), Seq::empty())
    } else {
        let (toks, cur) = scan_state(s, (i - 1) as nat);
        let c = s[i - 1];
        if spec_is_word_char(c) {
            (toks, cur.push(spec_ascii_lower(c)))
        } else {
            let flushed = if cur.len() > 0 { toks.push(cur) } else { toks };
            let with_pair = if spec_is_cjk(c) && i < s.len() && spec_is_cjk(s[i as int]) {
                flushed.push(seq![c, s[i as int]])
            } else {
                flushed
            };
            (with_pair, Seq::empty())
        }
    }
}

/// The tokens of `s`: every maximal run of word characters, lower-cased, in
/// place; and for every CJK character followed by another CJK character, the
/// pair of them.
pub open spec fn spec_tokenize(s: Seq<char>) -> Seq<Seq<char>> {
    let (toks, cur) = scan_state(s, s.len());
    if cur.len() > 0 {
        toks.push(cur)
    } else {
        toks
    }
}

/// Whether `c` is a word character: an ASCII letter or digit, `_` or `-`.
pub fn is_ascii_alphanumeric(c: char) -> (r: bool)
    ensures
        r == spec_is_word_char(c),
{
    is_ascii_alnum(c) || c == '_' || c == '-'
}

/// Whether `c` lies in one of the CJK ranges split into bigrams.
pub fn is_cjk(c: char) -> (r: bool)
    ensures
        r == spec_is_cjk(c),
{
    let v = c as u32;
    (0x4E00 <= v && v <= 0x9FFF) || (0x3400 <= v && v <= 0x4DBF) || (0x3000 <= v && v <= 0x303F)
        || (0xFF00 <= v && v <= 0xFFEF)
}

/// Whether `c` is a CJK Unified Ideograph (U+4E00 to U+9FFF).
pub fn is_chinese_char(c: char) -> (r: bool)
    ensures
        r == spec_is_chinese_char(c),
{
    let v = c as u32;
    v >= 0x4E00 && v <= 0x9FFF
}

/// The views of a list of character vectors.
pub open spec fn chars_view(v: Seq<Vec<char>>) -> Seq<Seq<char>> {
    v.map_values(|t: Vec<char>| t@)
}

proof fn lemma_chars_view_push(v: Seq<Vec<char>>, s: Vec<char>)
    ensures
        chars_view(v.push(s)) == chars_view(v).push(s@),
{
    assert(chars_view(v.push(s)) =~= chars_view(v).push(s@));
}

/// Tokenizes a sequence of characters into strings; see `spec_tokenize`.
pub fn tokenize_chars(chars: &Vec<char>) -> (tokens: Vec<String>)
    ensures
        strings_view(tokens@) == spec_tokenize(chars@),
{
    let toks = token_chars(chars);
    let mut out: Vec<String> = Vec::new();
    let mut k: usize = 0;
    while k < toks.len()
        invariant
            k <= toks@.len(),
            strings_view(out@) == chars_view(toks@).take(k as int),
        decreases toks@.len() - k,
    {
        let s = string_from_chars(toks[k].as_slice());
        proof {
            lemma_strings_view_push(out@, s);
        }
        out.push(s);
        k = k + 1;
        assert(strings_view(out@) =~= chars_view(toks@).take(k as int));
    }
    assert(chars_view(toks@).take(toks@.len() as int) =~= chars_view(toks@));
    out
}

/// Tokenizes a sequence of characters; see `spec_tokenize`.
pub fn token_chars(chars: &Vec<char>) -> (tokens: Vec<Vec<char>>)
    ensures
        chars_view(tokens@) == spec_tokenize(chars@),
{
    let mut tokens: Vec<Vec<char>> = Vec::new();
    let mut current: Vec<char> = Vec::new();
    let n = chars.len();
    let mut i: usize = 0;
    while i < n
        invariant
            n == chars@.len(),
            i <= n,
            (chars_view(tokens@), current@) == scan_state(chars@, i as nat),
        decreases n - i,
    {
        let c = chars[i];
        let ghost prev = scan_state(chars@, i as nat);
        assert(scan_state(chars@, (i + 1) as nat).1 == (if spec_is_word_char(c) {
            prev.1.push(spec_ascii_lower(c))
        } else {
            Seq::<char>::empty()
        }));
        if is_ascii_alphanumeric(c) {
            current.push(ascii_lower(c));
        } else {
            if current.len() > 0 {
                proof {
                    lemma_chars_view_push(tokens@, current);
                }
                tokens.push(current);
                current = Vec::new();
            }
            if is_cjk(c) {
                if i + 1 < n && is_cjk(chars[i + 1]) {
                    let mut pair: Vec<char> = Vec::new();
                    pair.push(c);
                    pair.push(chars[i + 1]);
                    proof {
                        lemma_chars_view_push(tokens@, pair);
                        assert(pair@ =~= seq![c, chars@[i + 1]]);
                    }
                    tokens.push(pair);
                }
            }
            current = Vec::new();
        }
        i = i + 1;
        assert(chars_view(tokens@) =~= scan_state(chars@, i as nat).0);
        assert(current@ =~= scan_state(chars@, i as nat).1);
    }
    if current.len() > 0 {
        proof {
            lemma_chars_view_push(tokens@, current);
        }
        tokens.push(current);
    }
    assert(chars_view(tokens@) =~= spec_tokenize(chars@));
    tokens
}

/// Splits `text` into search tokens; see `spec_tokenize`.
pub fn tokenize(text: &str) -> (tokens: Vec<String>)
    ensures
        strings_view(tokens@) == spec_tokenize(text@),
{
    let chars = chars_of(text);
    tokenize_chars(&chars)
}

/// Tokenizes the inside of a quoted phrase; a phrase is tokenized exactly as
/// any other text.
pub fn tokenize_phrase(text: &str) -> (tokens: Vec<String>)
    ensures
        strings_view(tokens@) == spec_tokenize(text@),
{
    tokenize(text)
}

} // verus!
