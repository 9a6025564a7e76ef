//! Text fields: names, labels and character cells.
//!
//! Text in a transport file is written in a single-byte code page, one
//! character per byte, and padded on the right to the field's width. A field
//! is decoded with windows-1252 and its trailing padding is removed.

use vstd::prelude::*;
use vstd::slice::slice_subrange;

verus! {

/// The longest field that `decode_char` takes. The decoder sizes its buffer at
/// three bytes a character and rounds up to a power of two; this bound keeps
/// that within `usize` on every target.
pub const MAX_TEXT_LEN: usize = 0x0fff_ffff;

/// The character that windows-1252 gives a byte: ASCII and `0xA0..=0xFF` map
/// to the code point of the same number, `0x80..=0x9F` to the code page's own
/// punctuation and letters, and the five bytes it leaves unassigned to the C1
/// control of the same number.
pub open spec fn windows_1252_char(b: u8) -> char {
    match b {
        0x80 => '\u{20AC}',
        0x82 => '\u{201A}',
        0x83 => '\u{0192}',
        0x84 => '\u{201E}',
        0x85 => '\u{2026}',
        0x86 => '\u{2020}',
        0x87 => '\u{2021}',
        0x88 => '\u{02C6}',
        0x89 => '\u{2030}',
        0x8A => '\u{0160}',
        0x8B => '\u{2039}',
        0x8C => '\u{0152}',
        0x8E => '\u{017D}',
        0x91 => '\u{2018}',
        0x92 => '\u{2019}',
        0x93 => '\u{201C}',
        0x94 => '\u{201D}',
        0x95 => '\u{2022}',
        0x96 => '\u{2013}',
        0x97 => '\u{2014}',
        0x98 => '\u{02DC}',
        0x99 => '\u{2122}',
        0x9A => '\u{0161}',
        0x9B => '\u{203A}',
        0x9C => '\u{0153}',
        0x9E => '\u{017E}',
        0x9F => '\u{0178}',
        _ => b as char,
    }
}

/// A byte string read as windows-1252: one character per byte.
pub open spec fn windows_1252_text(bytes: Seq<u8>) -> Seq<char> {
    Seq::new(bytes.len(), |i: int| windows_1252_char(bytes[i]))
}

/// Unicode's `White_Space` property.
pub open spec fn is_white_space(c: char) -> bool {
    let u = c as u32;
    ||| 0x09 <= u <= 0x0D
    ||| u == 0x20
    ||| u == 0x85
    ||| u == 0xA0
    ||| u == 0x1680
    ||| 0x2000 <= u <= 0x200A
    ||| u == 0x2028
    ||| u == 0x2029
    ||| u == 0x202F
    ||| u == 0x205F
    ||| u == 0x3000
}

/// A character that pads a field: white space or NUL.
pub open spec fn is_padding_char(c: char) -> bool {
    c == '\0' || is_white_space(c)
}

/// A byte that windows-1252 decodes to a padding character.
pub open spec fn is_padding_byte(b: u8) -> bool {
    b == 0 || (0x09 <= b <= 0x0D) || b == 0x20 || b == 0xA0
}

/// `s` without its trailing padding characters.
pub open spec fn trim_end(s: Seq<char>) -> Seq<char>
    decreases s.len(),
{
    if s.len() > 0 && is_padding_char(s.last()) {
        trim_end(s.drop_last())
    } else {
        s
    }
}

/// What a text field decodes to.
pub open spec fn text_decoded(bytes: Seq<u8>) -> Seq<char> {
    trim_end(windows_1252_text(bytes))
}

/// A byte is padding exactly when its character is.
pub proof fn lemma_padding_byte(b: u8)
    ensures
        is_padding_char(windows_1252_char(b)) == is_padding_byte(b),
{
}

/// A decoded field has at most one character per byte.
pub proof fn lemma_text_decoded_len(bytes: Seq<u8>)
    ensures
        text_decoded(bytes).len() <= bytes.len(),
{
    lemma_trim_end_len(windows_1252_text(bytes));
}

/// Trimming removes characters only from the end.
pub proof fn lemma_trim_end_len(s: Seq<char>)
    ensures
        trim_end(s).len() <= s.len(),
        trim_end(s) == s.subrange(0, trim_end(s).len() as int),
        trim_end(s).len() > 0 ==> !is_padding_char(trim_end(s).last()),
        forall|i: int| trim_end(s).len() <= i < s.len() ==> is_padding_char(#[trigger] s[i]),
    decreases s.len(),
{
    if s.len() > 0 && is_padding_char(s.last()) {
        lemma_trim_end_len(s.drop_last());
        let t = trim_end(s);
        assert(t == s.subrange(0, t.len() as int));
        assert forall|i: int| t.len() <= i < s.len() implies is_padding_char(#[trigger] s[i]) by {
            if i < s.len() - 1 {
                assert(s.drop_last()[i] == s[i]);
            }
        }
    } else {
        assert(s == s.subrange(0, s.len() as int));
    }
}

/// `encoding_rs::WINDOWS_1252.decode_without_bom_handling`, as an owned
/// string. The contract claims that the decoder maps every byte to one
/// character, the one that the code page's table gives it: ASCII unchanged,
/// the upper half through the crate's windows-1252 index, in which no byte is
/// unmapped, so that nothing is replaced.
#[verifier::external_body]
fn decode_windows_1252(bytes: &[u8]) -> (s: String)
    requires
        bytes@.len() <= MAX_TEXT_LEN,
    ensures
        s@ == windows_1252_text(bytes@),
{
    let (text, _) = encoding_rs::WINDOWS_1252.decode_without_bom_handling(bytes);
    text.into_owned()
}

/// The length of `bytes` without its trailing padding bytes.
pub fn trimmed_len(bytes: &[u8]) -> (end: usize)
    ensures
        end <= bytes@.len(),
        end > 0 ==> !is_padding_byte(bytes@[end - 1]),
        forall|i: int| end <= i < bytes@.len() ==> is_padding_byte(#[trigger] bytes@[i]),
{
    let mut end: usize = bytes.len();
    while end > 0 && (bytes[end - 1] == 0 || (0x09 <= bytes[end - 1] && bytes[end - 1] <= 0x0D)
        || bytes[end - 1] == 0x20 || bytes[end - 1] == 0xA0)
        invariant
            end <= bytes@.len(),
            forall|i: int| end <= i < bytes@.len() ==> is_padding_byte(#[trigger] bytes@[i]),
        decreases end,
    {
        end -= 1;
    }
    end
}

/// Trimming the decoded text is decoding the bytes before the trailing
/// padding bytes.
pub proof fn lemma_trim_commutes(bytes: Seq<u8>, end: int)
    requires
        0 <= end <= bytes.len(),
        end > 0 ==> !is_padding_byte(bytes[end - 1]),
        forall|i: int| end <= i < bytes.len() ==> is_padding_byte(#[trigger] bytes[i]),
    ensures
        text_decoded(bytes) == windows_1252_text(bytes.subrange(0, end)),
    decreases bytes.len() - end,
{
    let text = windows_1252_text(bytes);
    if end == bytes.len() {
        assert(bytes.subrange(0, end) == bytes);
        if end > 0 {
            lemma_padding_byte(bytes[end - 1]);
            assert(text.last() == windows_1252_char(bytes[end - 1]));
        }
    } else {
        let shorter = bytes.drop_last();
        lemma_padding_byte(bytes.last());
        assert(text.last() == windows_1252_char(bytes.last()));
        assert(text.drop_last() == windows_1252_text(shorter));
        assert forall|i: int| end <= i < shorter.len() implies is_padding_byte(
            #[trigger] shorter[i],
        ) by {
            assert(shorter[i] == bytes[i]);
        }
        lemma_trim_commutes(shorter, end);
        assert(shorter.subrange(0, end) == bytes.subrange(0, end));
    }
}

/// Decodes a text field: windows-1252, one character per byte, without the
/// trailing white space and NUL bytes that pad it.
pub fn decode_char(bytes: &[u8]) -> (s: String)
    requires
        bytes@.len() <= MAX_TEXT_LEN,
    ensures
        s@ == text_decoded(bytes@),
{
    let end = trimmed_len(bytes);
    proof {
        lemma_trim_commutes(bytes@, end as int);
    }
    decode_windows_1252(slice_subrange(bytes, 0, end))
}

} // verus!
