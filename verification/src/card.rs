//! Cards and banners.
//!
//! A transport file is a sequence of 80-byte records, called cards. Every
//! section of the file starts on a card boundary with a banner card, whose text
//! names the section.

use vstd::prelude::*;
use vstd::slice::slice_subrange;

verus! {

/// The length of a card.
pub const CARD: usize = 80;

/// The sections that a banner card can open.
#[derive(Clone, Copy, Debug, PartialEq, Eq, Structural)]
pub enum Section {
    Library,
    Member,
    Dscrptr,
    Namestr,
    Obs,
}

/// `HEADER RECORD*******`, the text that every banner card starts with.
pub open spec fn banner_prefix() -> Seq<u8> {
    seq![
        0x48u8, 0x45, 0x41, 0x44, 0x45, 0x52, 0x20, 0x52, 0x45, 0x43, 0x4F, 0x52, 0x44, 0x2A, 0x2A,
        0x2A, 0x2A, 0x2A, 0x2A, 0x2A,
    ]
}

/// `HEADER`.
pub open spec fn header_word() -> Seq<u8> {
    seq![0x48u8, 0x45, 0x41, 0x44, 0x45, 0x52]
}

/// The word that names a section in its banner: `LIBRARY`, `MEMBER`,
/// `DSCRPTR`, `NAMESTR` or `OBS`.
pub open spec fn section_word(section: Section) -> Seq<u8> {
    match section {
        Section::Library => seq![0x4Cu8, 0x49, 0x42, 0x52, 0x41, 0x52, 0x59],
        Section::Member => seq![0x4Du8, 0x45, 0x4D, 0x42, 0x45, 0x52],
        Section::Dscrptr => seq![0x44u8, 0x53, 0x43, 0x52, 0x50, 0x54, 0x52],
        Section::Namestr => seq![0x4Eu8, 0x41, 0x4D, 0x45, 0x53, 0x54, 0x52],
        Section::Obs => seq![0x4Fu8, 0x42, 0x53],
    }
}

/// `pattern` stands in `data` at index `i`.
pub open spec fn occurs_at(data: Seq<u8>, pattern: Seq<u8>, i: int) -> bool {
    0 <= i && i + pattern.len() <= data.len() && data.subrange(i, i + pattern.len()) == pattern
}

/// `pattern` stands somewhere in `data`.
pub open spec fn contains(data: Seq<u8>, pattern: Seq<u8>) -> bool {
    exists|i: int| occurs_at(data, pattern, i)
}

/// A card is the banner of a section when it holds the section's word and the
/// word `HEADER`. Real files space their banners unevenly, so the words are
/// looked for anywhere in the card.
pub open spec fn is_banner(card: Seq<u8>, section: Section) -> bool {
    contains(card, section_word(section)) && contains(card, header_word())
}

/// The card starts with the text that every banner starts with.
pub open spec fn has_banner_prefix(card: Seq<u8>) -> bool {
    occurs_at(card, banner_prefix(), 0)
}

/// A full card starts at `pos`.
pub open spec fn has_card(data: Seq<u8>, pos: int) -> bool {
    0 <= pos && pos + CARD <= data.len()
}

/// The card that starts at `pos`.
pub open spec fn card_at(data: Seq<u8>, pos: int) -> Seq<u8> {
    data.subrange(pos, pos + CARD)
}

/// Every byte is zero.
pub open spec fn all_zero(bytes: Seq<u8>) -> bool {
    forall|i: int| 0 <= i < bytes.len() ==> bytes[i] == 0
}

/// The first index at which `pattern` stands in `data`, if there is one.
pub fn find_bytes(data: &[u8], pattern: &[u8]) -> (found: Option<usize>)
    requires
        pattern@.len() > 0,
    ensures
        match found {
            Some(i) => occurs_at(data@, pattern@, i as int) && forall|j: int|
                0 <= j < i ==> !occurs_at(data@, pattern@, j),
            None => !contains(data@, pattern@),
        },
{
    let n = data.len();
    let m = pattern.len();
    if m > n {
        return None;
    }
    let mut i: usize = 0;
    while i <= n - m
        invariant
            n == data@.len(),
            m == pattern@.len(),
            0 < m <= n,
            i <= n - m + 1,
            forall|j: int| 0 <= j < i ==> !occurs_at(data@, pattern@, j),
        decreases n - m + 1 - i,
    {
        let mut k: usize = 0;
        while k < m && data[i + k] == pattern[k]
            invariant
                n == data@.len(),
                m == pattern@.len(),
                i + m <= n,
                k <= m,
                forall|t: int| 0 <= t < k ==> data@[i + t] == pattern@[t],
            decreases m - k,
        {
            k += 1;
        }
        if k == m {
            assert(data@.subrange(i as int, i + m) =~= pattern@);
            return Some(i);
        }
        assert(!occurs_at(data@, pattern@, i as int)) by {
            if occurs_at(data@, pattern@, i as int) {
                assert(data@.subrange(i as int, i + m)[k as int] == pattern@[k as int]);
            }
        }
        i += 1;
    }
    None
}

/// Whether `pattern` stands somewhere in `data`.
pub fn contains_bytes(data: &[u8], pattern: &[u8]) -> (r: bool)
    requires
        pattern@.len() > 0,
    ensures
        r == contains(data@, pattern@),
{
    find_bytes(data, pattern).is_some()
}

/// Whether a card is the banner of `section`.
pub fn card_is_banner(card: &[u8], section: Section) -> (r: bool)
    ensures
        r == is_banner(card@, section),
{
    let header: [u8; 6] = [0x48, 0x45, 0x41, 0x44, 0x45, 0x52];
    assert(header@ =~= header_word());
    if !contains_bytes(card, header.as_slice()) {
        return false;
    }
    match section {
        Section::Library => {
            let word: [u8; 7] = [0x4C, 0x49, 0x42, 0x52, 0x41, 0x52, 0x59];
            assert(word@ =~= section_word(section));
            contains_bytes(card, word.as_slice())
        },
        Section::Member => {
            let word: [u8; 6] = [0x4D, 0x45, 0x4D, 0x42, 0x45, 0x52];
            assert(word@ =~= section_word(section));
            contains_bytes(card, word.as_slice())
        },
        Section::Dscrptr => {
            let word: [u8; 7] = [0x44, 0x53, 0x43, 0x52, 0x50, 0x54, 0x52];
            assert(word@ =~= section_word(section));
            contains_bytes(card, word.as_slice())
        },
        Section::Namestr => {
            let word: [u8; 7] = [0x4E, 0x41, 0x4D, 0x45, 0x53, 0x54, 0x52];
            assert(word@ =~= section_word(section));
            contains_bytes(card, word.as_slice())
        },
        Section::Obs => {
            let word: [u8; 3] = [0x4F, 0x42, 0x53];
            assert(word@ =~= section_word(section));
            contains_bytes(card, word.as_slice())
        },
    }
}

/// Whether `card` is a card that starts with `HEADER RECORD*******`. A slice
/// of any other length than a card's is none.
pub fn looks_like_header(card: &[u8]) -> (r: bool)
    ensures
        r == (card@.len() == CARD && has_banner_prefix(card@)),
{
    let prefix: [u8; 20] = [
        0x48,
        0x45,
        0x41,
        0x44,
        0x45,
        0x52,
        0x20,
        0x52,
        0x45,
        0x43,
        0x4F,
        0x52,
        0x44,
        0x2A,
        0x2A,
        0x2A,
        0x2A,
        0x2A,
        0x2A,
        0x2A,
    ];
    assert(prefix@ =~= banner_prefix());
    if card.len() != CARD {
        return false;
    }
    let mut k: usize = 0;
    while k < 20
        invariant
            k <= 20,
            card@.len() == CARD,
            prefix@ == banner_prefix(),
            forall|t: int| 0 <= t < k ==> card@[t] == prefix@[t],
        decreases 20 - k,
    {
        if card[k] != prefix[k] {
            assert(card@.subrange(0, 20)[k as int] != banner_prefix()[k as int]);
            return false;
        }
        k += 1;
    }
    assert(card@.subrange(0, 20) =~= banner_prefix());
    true
}

/// Whether every byte of a card is zero.
pub fn is_zero_card(card: &[u8]) -> (r: bool)
    ensures
        r == all_zero(card@),
{
    let mut i: usize = 0;
    while i < card.len()
        invariant
            i <= card@.len(),
            forall|j: int| 0 <= j < i ==> card@[j] == 0,
        decreases card@.len() - i,
    {
        if card[i] != 0 {
            return false;
        }
        i += 1;
    }
    true
}

/// A sequential reader of cards over a byte buffer.
///
/// `peek_card` looks at the next card without taking it, so that a card that
/// turns out to open the next section can be read again as that section's
/// first card.
pub struct CardStream<'a> {
    data: &'a [u8],
    pos: usize,
}

impl<'a> CardStream<'a> {
    /// The bytes that the stream reads.
    pub closed spec fn data(&self) -> Seq<u8> {
        self.data@
    }

    /// The offset of the next card.
    pub closed spec fn position(&self) -> int {
        self.pos as int
    }

    /// The position never passes the end of the data.
    #[verifier::type_invariant]
    spec fn in_range(&self) -> bool {
        self.pos <= self.data@.len()
    }

    /// A stream at the start of `data`.
    pub fn new(data: &'a [u8]) -> (s: Self)
        ensures
            s.data() == data@,
            s.position() == 0,
    {
        CardStream { data, pos: 0 }
    }

    /// A stream over `data` whose next card starts at `pos`.
    pub fn at(data: &'a [u8], pos: usize) -> (s: Self)
        requires
            pos <= data@.len(),
        ensures
            s.data() == data@,
            s.position() == pos,
    {
        CardStream { data, pos }
    }

    /// The offset of the next card.
    pub fn offset(&self) -> (p: usize)
        ensures
            p == self.position(),
            p <= self.data().len(),
    {
        proof {
            use_type_invariant(self);
        }
        self.pos
    }

    /// Whether the stream is at the end of its data. Where it is not and
    /// `peek_card` still finds no card, the last card is cut short.
    pub fn at_end(&self) -> (r: bool)
        ensures
            r == (self.position() >= self.data().len()),
    {
        proof {
            use_type_invariant(self);
        }
        self.pos >= self.data.len()
    }

    /// The next card, which stays in the stream; `None` where fewer than 80
    /// bytes are left.
    pub fn peek_card(&self) -> (card: Option<&'a [u8]>)
        ensures
            card.is_some() == has_card(self.data(), self.position()),
            card.is_some() ==> card.unwrap()@ == card_at(self.data(), self.position()),
    {
        proof {
            use_type_invariant(self);
        }
        if self.data.len() - self.pos < CARD {
            None
        } else {
            Some(slice_subrange(self.data, self.pos, self.pos + CARD))
        }
    }

    /// Takes the next card; `None`, and the stream unchanged, where fewer than
    /// 80 bytes are left.
    pub fn next_card(&mut self) -> (card: Option<&'a [u8]>)
        ensures
            final(self).data() == old(self).data(),
            card.is_some() == has_card(old(self).data(), old(self).position()),
            card.is_some() ==> card.unwrap()@ == card_at(old(self).data(), old(self).position())
                && final(self).position() == old(self).position() + CARD,
            card.is_none() ==> final(self).position() == old(self).position(),
    {
        proof {
            use_type_invariant(&*self);
        }
        if self.data.len() - self.pos < CARD {
            None
        } else {
            let card = slice_subrange(self.data, self.pos, self.pos + CARD);
            self.pos = self.pos + CARD;
            Some(card)
        }
    }
}

} // verus!
