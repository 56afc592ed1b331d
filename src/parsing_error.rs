//! The ways in which reading a registry can fail.

use vstd::prelude::*;

verus! {

/// Why a byte stream could not be read as a registry.
#[derive(Debug)]
pub enum ParsingError {
    /// The stream does not open with the root marker.
    WrongStartingByte,
    /// The `shortcuts` section header is missing.
    ShortcutsNotFound,
    /// An entry's index string is not the next position.
    ShortcutsEntriesDoNotAlign,
    /// A field-type tag is none of the three known ones.
    InvalidMapType(u8),
    /// No NUL terminator before the end of the stream.
    FailedToParseString,
    /// Fewer than four bytes remain for an integer.
    FailedToParseInteger,
    /// A field key that no record field has.
    UnknownKey(String),
    /// An entry-close marker or a field with no open entry.
    CurrentShortcutEntryIsEmpty,
}

/// The mathematical counterpart of [`ParsingError`].
pub enum ParsingErrorView {
    WrongStartingByte,
    ShortcutsNotFound,
    ShortcutsEntriesDoNotAlign,
    InvalidMapType(u8),
    FailedToParseString,
    FailedToParseInteger,
    UnknownKey(Seq<char>),
    CurrentShortcutEntryIsEmpty,
}

impl View for ParsingError {
    type V = ParsingErrorView;

    open spec fn view(&self) -> ParsingErrorView {
        match self {
            ParsingError::WrongStartingByte => ParsingErrorView::WrongStartingByte,
            ParsingError::ShortcutsNotFound => ParsingErrorView::ShortcutsNotFound,
            ParsingError::ShortcutsEntriesDoNotAlign => ParsingErrorView::ShortcutsEntriesDoNotAlign,
            ParsingError::InvalidMapType(b) => ParsingErrorView::InvalidMapType(*b),
            ParsingError::FailedToParseString => ParsingErrorView::FailedToParseString,
            ParsingError::FailedToParseInteger => ParsingErrorView::FailedToParseInteger,
            ParsingError::UnknownKey(k) => ParsingErrorView::UnknownKey(k@),
            ParsingError::CurrentShortcutEntryIsEmpty => ParsingErrorView::CurrentShortcutEntryIsEmpty,
        }
    }
}

} // verus!
