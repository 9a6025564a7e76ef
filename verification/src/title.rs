//! The name of a dataset.
//!
//! A member's name is a best guess. It is the first word behind the text
//! `MEMBER  NAME` in the member's header, if that text is there; many files
//! carry no such name, and a placeholder stands in for it.

use crate::card::{contains, find_bytes, occurs_at};
use crate::text::{decode_char, text_decoded};
use vstd::prelude::*;
use vstd::slice::slice_subrange;
use vstd::string::StringExecFns;

verus! {

/// `MEMBER  NAME`, the text that a name follows.
pub open spec fn name_marker() -> Seq<u8> {
    seq![0x4Du8, 0x45, 0x4D, 0x42, 0x45, 0x52, 0x20, 0x20, 0x4E, 0x41, 0x4D, 0x45]
}

/// The first index at which `pattern` stands in `data`.
pub open spec fn first_occurrence(data: Seq<u8>, pattern: Seq<u8>) -> int {
    choose|i: int|
        occurs_at(data, pattern, i) && forall|j: int| 0 <= j < i ==> !occurs_at(data, pattern, j)
}

/// Blank and NUL part the words of a header.
pub open spec fn is_separator(b: u8) -> bool {
    b == 0x20 || b == 0x00
}

/// The first index from `i` on that holds no separator, or the length.
pub open spec fn skip_separators(bytes: Seq<u8>, i: int) -> int
    decreases bytes.len() - i,
{
    if 0 <= i < bytes.len() && is_separator(bytes[i]) {
        skip_separators(bytes, i + 1)
    } else {
        i
    }
}

/// The first index from `i` on that holds a separator, or the length.
pub open spec fn word_end(bytes: Seq<u8>, i: int) -> int
    decreases bytes.len() - i,
{
    if 0 <= i < bytes.len() && !is_separator(bytes[i]) {
        word_end(bytes, i + 1)
    } else {
        i
    }
}

/// The first word of `bytes`; empty where there is none.
pub open spec fn first_word(bytes: Seq<u8>) -> Seq<u8> {
    let start = skip_separators(bytes, 0);
    bytes.subrange(start, word_end(bytes, start))
}

/// The 80 bytes behind the first marker, or as many as there are.
pub open spec fn name_window(data: Seq<u8>) -> Seq<u8> {
    let start = first_occurrence(data, name_marker()) + name_marker().len();
    let limit = if start + 80 <= data.len() {
        start + 80
    } else {
        data.len() as int
    };
    data.subrange(start, limit)
}

/// The name that a header gives: the first word within the 80 bytes behind
/// the first marker.
pub open spec fn title_after_marker(data: Seq<u8>) -> Option<Seq<char>> {
    if !contains(data, name_marker()) {
        None
    } else if first_word(name_window(data)).len() == 0 {
        None
    } else {
        Some(text_decoded(first_word(name_window(data))))
    }
}

/// `XPT Dataset`, the name of a dataset whose name is not known.
pub open spec fn placeholder_title() -> Seq<char> {
    "XPT Dataset"@
}

/// The title of a dataset: the name from its header, else the fallback, else
/// the placeholder.
pub open spec fn title_chosen(marker: Option<Seq<char>>, fallback: Option<Seq<char>>) -> Seq<
    char,
> {
    match marker {
        Some(name) => name,
        None => match fallback {
            Some(name) => name,
            None => placeholder_title(),
        },
    }
}

/// The bounds of the first word.
pub proof fn lemma_first_word(bytes: Seq<u8>, i: int)
    requires
        0 <= i <= bytes.len(),
    ensures
        i <= skip_separators(bytes, i) <= bytes.len(),
        i <= word_end(bytes, i) <= bytes.len(),
    decreases bytes.len() - i,
{
    if i < bytes.len() {
        lemma_first_word(bytes, i + 1);
    }
}

fn first_word_of(bytes: &[u8]) -> (word: &[u8])
    ensures
        word@ == first_word(bytes@),
{
    let n = bytes.len();
    let mut start: usize = 0;
    while start < n && (bytes[start] == 0x20 || bytes[start] == 0x00)
        invariant
            start <= n,
            n == bytes@.len(),
            skip_separators(bytes@, 0) == skip_separators(bytes@, start as int),
        decreases n - start,
    {
        start += 1;
    }
    let mut end: usize = start;
    while end < n && !(bytes[end] == 0x20 || bytes[end] == 0x00)
        invariant
            start <= end <= n,
            n == bytes@.len(),
            word_end(bytes@, start as int) == word_end(bytes@, end as int),
        decreases n - end,
    {
        end += 1;
    }
    slice_subrange(bytes, start, end)
}

/// The name that a header gives, if it gives one.
pub fn marker_title(data: &[u8]) -> (title: Option<String>)
    ensures
        match title {
            Some(t) => title_after_marker(data@) == Some(t@),
            None => title_after_marker(data@).is_none(),
        },
{
    let marker: [u8; 12] = [0x4D, 0x45, 0x4D, 0x42, 0x45, 0x52, 0x20, 0x20, 0x4E, 0x41, 0x4D, 0x45];
    assert(marker@ =~= name_marker());
    let n: usize = data.len();
    match find_bytes(data, marker.as_slice()) {
        None => None,
        Some(at) => {
            assert(at == first_occurrence(data@, name_marker()));
            let start: usize = at + 12;
            let limit: usize = if n - start >= 80 {
                start + 80
            } else {
                n
            };
            let window = slice_subrange(data, start, limit);
            assert(window@ == name_window(data@));
            let word = first_word_of(window);
            proof {
                lemma_first_word(window@, 0);
                lemma_first_word(window@, skip_separators(window@, 0));
            }
            if word.len() == 0 {
                None
            } else {
                Some(decode_char(word))
            }
        },
    }
}

/// The title of a dataset: the name from its header, else the fallback, else
/// `XPT Dataset`.
pub fn choose_title(marker: Option<String>, fallback: Option<String>) -> (title: String)
    ensures
        title@ == title_chosen(
            match marker {
                Some(m) => Some(m@),
                None => None,
            },
            match fallback {
                Some(f) => Some(f@),
                None => None,
            },
        ),
{
    match marker {
        Some(name) => name,
        None => match fallback {
            Some(name) => name,
            None => String::from_str("XPT Dataset"),
        },
    }
}

/// `std::path::Path::file_stem` of a path given as text, as text: the file
/// name without its last extension. Nothing is claimed of the result, since
/// where a file name starts within a path depends on the platform.
#[verifier::external_body]
pub(crate) fn file_stem(path: &str) -> (stem: Option<String>) {
    match std::path::Path::new(path).file_stem() {
        Some(stem) => Some(stem.to_string_lossy().into_owned()),
        None => None,
    }
}

/// The title of a dataset: the name that the bytes of its header give, else
/// the stem of the suggested file name, else `XPT Dataset`.
///
/// What the stem of a file name is, the platform decides; `choose_title`
/// states the choice for every stem.
pub fn infer_dataset_title(data: &[u8], fallback: Option<&str>) -> (title: String)
    ensures
        title_after_marker(data@).is_some() ==> title@ == title_after_marker(data@).unwrap(),
        title_after_marker(data@).is_none() && fallback.is_none() ==> title@
            == placeholder_title(),
{
    let marker = marker_title(data);
    let stem = match fallback {
        Some(name) => file_stem(name),
        None => None,
    };
    choose_title(marker, stem)
}

} // verus!
