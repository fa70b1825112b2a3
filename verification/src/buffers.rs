//! Fixed-capacity strings of the `heapless` crate: the line being received
//! (32 bytes) and the text of a `TEXT` command (5 bytes).
//!
//! `heapless::String<N>` is a vector of at most `N` bytes holding the UTF-8
//! encoding of its characters; Verus sees each one through the characters
//! it holds.
use crate::protocol::{char_utf8_len, utf8_len};
use vstd::prelude::*;

verus! {

#[verifier::external_type_specification]
#[verifier::external_body]
pub struct ExCapacityError(heapless::CapacityError);

/// The line gathered so far: a `heapless::String` of 32 bytes.
#[verifier::external_body]
pub struct LineBuffer {
    buf: heapless::String<32>,
}

/// The characters that a line buffer holds.
pub uninterp spec fn line_buffer_chars(b: LineBuffer) -> Seq<char>;

impl LineBuffer {
    /// `heapless::String::new`: an empty string.
    #[verifier::external_body]
    pub(crate) fn new() -> (b: LineBuffer)
        ensures
            line_buffer_chars(b) == Seq::<char>::empty(),
    {
        LineBuffer { buf: heapless::String::new() }
    }

    /// `heapless::String::push`: appends `c` when its UTF-8 encoding fits in
    /// the room left of the 32 bytes, and otherwise leaves the string as it
    /// was and returns the capacity error.
    #[verifier::external_body]
    pub(crate) fn push(&mut self, c: char) -> (r: Result<(), heapless::CapacityError>)
        ensures
            utf8_len(line_buffer_chars(*old(self))) + char_utf8_len(c) <= 32 ==> r is Ok
                && line_buffer_chars(*final(self)) == line_buffer_chars(*old(self)).push(c),
            utf8_len(line_buffer_chars(*old(self))) + char_utf8_len(c) > 32 ==> r is Err
                && line_buffer_chars(*final(self)) == line_buffer_chars(*old(self)),
    {
        self.buf.push(c)
    }

    /// `heapless::String::clear`: empties the string.
    #[verifier::external_body]
    pub(crate) fn clear(&mut self)
        ensures
            line_buffer_chars(*final(self)) == Seq::<char>::empty(),
    {
        self.buf.clear()
    }

    /// `heapless::String::as_str`: the characters held, as a string slice.
    #[verifier::external_body]
    pub(crate) fn as_str(&self) -> (s: &str)
        ensures
            s@ == line_buffer_chars(*self),
    {
        self.buf.as_str()
    }
}

/// The text of a `TEXT` command: a `heapless::String` of 5 bytes.
#[derive(Debug, PartialEq, Eq)]
#[verifier::external_body]
pub struct TextBuffer {
    buf: heapless::String<5>,
}

/// The characters that a text buffer holds.
pub uninterp spec fn text_buffer_chars(t: TextBuffer) -> Seq<char>;

impl TextBuffer {
    /// `heapless::String::new`: an empty string.
    #[verifier::external_body]
    pub(crate) fn new() -> (t: TextBuffer)
        ensures
            text_buffer_chars(t) == Seq::<char>::empty(),
    {
        TextBuffer { buf: heapless::String::new() }
    }

    /// `heapless::String::push`: appends `c` when its UTF-8 encoding fits in
    /// the room left of the 5 bytes, and otherwise leaves the string as it
    /// was and returns the capacity error.
    #[verifier::external_body]
    pub(crate) fn push(&mut self, c: char) -> (r: Result<(), heapless::CapacityError>)
        ensures
            utf8_len(text_buffer_chars(*old(self))) + char_utf8_len(c) <= 5 ==> r is Ok
                && text_buffer_chars(*final(self)) == text_buffer_chars(*old(self)).push(c),
            utf8_len(text_buffer_chars(*old(self))) + char_utf8_len(c) > 5 ==> r is Err
                && text_buffer_chars(*final(self)) == text_buffer_chars(*old(self)),
    {
        self.buf.push(c)
    }

    /// `heapless::String::as_str`: the characters held, as a string slice.
    #[verifier::external_body]
    pub(crate) fn as_str(&self) -> (s: &str)
        ensures
            s@ == text_buffer_chars(*self),
    {
        self.buf.as_str()
    }

    /// The text.
    pub fn text(&self) -> (s: &str)
        ensures
            s@ == text_buffer_chars(*self),
    {
        self.as_str()
    }
}

} // verus!
