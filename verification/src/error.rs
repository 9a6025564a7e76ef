//! The ways in which decoding fails.

use crate::card::Section;
use vstd::prelude::*;

verus! {

/// Why a transport file could not be decoded. Every failure ends the decode:
/// no partial result is returned.
#[derive(Clone, Debug, PartialEq, Eq)]
pub enum XptError {
    /// A card was needed at `offset`, and fewer than 80 bytes are left there.
    TruncatedInput { offset: usize },
    /// The card at `offset` should be the banner of `expected` and is not.
    /// `found_preview` is the text of its first 60 bytes.
    MalformedHeader { expected: Section, found_preview: String, offset: usize },
    /// The data end at `offset`, inside the section `expected`.
    UnexpectedEndOfFile { expected: Section, offset: usize },
    /// No descriptor stands between the NAMESTR header, whose descriptors
    /// would start at `offset`, and the OBS banner.
    NoVariablesDescribed { offset: usize },
    /// The observations, `observation_bytes` bytes from `offset` on, are no
    /// whole number of rows, neither at the variables' width nor at that width
    /// rounded up to a multiple of 8, and what is left over is not filler.
    UnresolvableRowWidth { offset: usize, observation_bytes: usize },
    /// The file holds no member.
    NoDatasetsFound,
}

/// An `XptError` with its text as a sequence of characters.
pub enum XptErrorView {
    TruncatedInput { offset: int },
    MalformedHeader { expected: Section, found_preview: Seq<char>, offset: int },
    UnexpectedEndOfFile { expected: Section, offset: int },
    NoVariablesDescribed { offset: int },
    UnresolvableRowWidth { offset: int, observation_bytes: int },
    NoDatasetsFound,
}

impl View for XptError {
    type V = XptErrorView;

    open spec fn view(&self) -> XptErrorView {
        match *self {
            XptError::TruncatedInput { offset } => XptErrorView::TruncatedInput {
                offset: offset as int,
            },
            XptError::MalformedHeader {
                expected,
                found_preview,
                offset,
            } => XptErrorView::MalformedHeader {
                expected,
                found_preview: found_preview@,
                offset: offset as int,
            },
            XptError::UnexpectedEndOfFile { expected, offset } => XptErrorView::UnexpectedEndOfFile {
                expected,
                offset: offset as int,
            },
            XptError::NoVariablesDescribed { offset } => XptErrorView::NoVariablesDescribed {
                offset: offset as int,
            },
            XptError::UnresolvableRowWidth {
                offset,
                observation_bytes,
            } => XptErrorView::UnresolvableRowWidth {
                offset: offset as int,
                observation_bytes: observation_bytes as int,
            },
            XptError::NoDatasetsFound => XptErrorView::NoDatasetsFound,
        }
    }
}

} // verus!
