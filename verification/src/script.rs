//! Script membership tests for Japanese text.
//!
//! A run may only contain words whose text lies entirely in the Kanji,
//! Hiragana or Katakana Unicode ranges; these predicates give that rule an
//! exact, character-level definition.

use vstd::prelude::*;

verus! {

/// The CJK ideograph ranges (the unified blocks, the compatibility block,
/// the extensions, and the iteration mark).
pub open spec fn spec_is_kanji(c: char) -> bool {
    ||| 0x4e00 <= c as u32 <= 0x9ffc
    ||| 0xf900 <= c as u32 <= 0xfaff
    ||| 0x3400 <= c as u32 <= 0x4dbf
    ||| 0x20000 <= c as u32 <= 0x2a6dd
    ||| 0x2a700 <= c as u32 <= 0x2b734
    ||| 0x2b740 <= c as u32 <= 0x2b81d
    ||| 0x2b820 <= c as u32 <= 0x2cea1
    ||| 0x2ceb0 <= c as u32 <= 0x2ebe0
    ||| 0x2f800 <= c as u32 <= 0x2fa1d
    ||| 0x30000 <= c as u32 <= 0x3134a
    ||| c as u32 == 0x3005
}

/// The Hiragana ranges (the main block, the historic letters, and the small
/// letter extensions).
pub open spec fn spec_is_hiragana(c: char) -> bool {
    ||| 0x3041 <= c as u32 <= 0x3096
    ||| c as u32 == 0x1b001
    ||| c as u32 == 0x1b11f
    ||| 0x1b150 <= c as u32 <= 0x1b152
}

/// The Katakana ranges (the main block with the prolonged sound mark, the
/// phonetic extensions, the halfwidth forms, the historic letter, and the
/// small letter extensions).
pub open spec fn spec_is_katakana(c: char) -> bool {
    ||| 0x30a1 <= c as u32 <= 0x30fa
    ||| c as u32 == 0x30fc
    ||| 0x31f0 <= c as u32 <= 0x31ff
    ||| 0xff66 <= c as u32 <= 0xff9d
    ||| c as u32 == 0x1b000
    ||| 0x1b164 <= c as u32 <= 0x1b167
}

/// A character counts as Japanese when any of the three scripts claims it.
pub open spec fn spec_is_japanese_char(c: char) -> bool {
    spec_is_kanji(c) || spec_is_hiragana(c) || spec_is_katakana(c)
}

/// Every character of the text is Japanese (vacuously true of empty text).
pub open spec fn spec_is_japanese_text(s: Seq<char>) -> bool {
    forall|i: int| 0 <= i < s.len() ==> spec_is_japanese_char(#[trigger] s[i])
}

#[verifier::when_used_as_spec(spec_is_kanji)]
pub fn is_kanji(c: char) -> (b: bool)
    ensures
        b == spec_is_kanji(c),
{
    let u = c as u32;
    (0x4e00 <= u && u <= 0x9ffc)
        || (0xf900 <= u && u <= 0xfaff)
        || (0x3400 <= u && u <= 0x4dbf)
        || (0x20000 <= u && u <= 0x2a6dd)
        || (0x2a700 <= u && u <= 0x2b734)
        || (0x2b740 <= u && u <= 0x2b81d)
        || (0x2b820 <= u && u <= 0x2cea1)
        || (0x2ceb0 <= u && u <= 0x2ebe0)
        || (0x2f800 <= u && u <= 0x2fa1d)
        || (0x30000 <= u && u <= 0x3134a)
        || u == 0x3005
}

#[verifier::when_used_as_spec(spec_is_hiragana)]
pub fn is_hiragana(c: char) -> (b: bool)
    ensures
        b == spec_is_hiragana(c),
{
    let u = c as u32;
    (0x3041 <= u && u <= 0x3096)
        || u == 0x1b001
        || u == 0x1b11f
        || (0x1b150 <= u && u <= 0x1b152)
}

#[verifier::when_used_as_spec(spec_is_katakana)]
pub fn is_katakana(c: char) -> (b: bool)
    ensures
        b == spec_is_katakana(c),
{
    let u = c as u32;
    (0x30a1 <= u && u <= 0x30fa)
        || u == 0x30fc
        || (0x31f0 <= u && u <= 0x31ff)
        || (0xff66 <= u && u <= 0xff9d)
        || u == 0x1b000
        || (0x1b164 <= u && u <= 0x1b167)
}

#[verifier::when_used_as_spec(spec_is_japanese_char)]
pub fn is_japanese_char(c: char) -> (b: bool)
    ensures
        b == spec_is_japanese_char(c),
{
    is_kanji(c) || is_hiragana(c) || is_katakana(c)
}

/// Whether every character of `s` is Kanji, Hiragana or Katakana; this is
/// the script filter that decides which OCR words may join a run.
pub fn is_japanese_text(s: &str) -> (b: bool)
    ensures
        b == spec_is_japanese_text(s@),
{
    let n = s.unicode_len();
    let mut i: usize = 0;
    while i < n
        invariant
            n == s@.len(),
            0 <= i <= n,
            forall|k: int| 0 <= k < i ==> spec_is_japanese_char(#[trigger] s@[k]),
        decreases n - i,
    {
        let c = s.get_char(i);
        if !is_japanese_char(c) {
            return false;
        }
        i += 1;
    }
    true
}

} // verus!
