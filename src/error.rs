use vstd::prelude::*;

verus! {

/// Why a line could not be parsed: the zero-based character position at
/// which parsing stopped, and the character found there.
#[derive(Debug, Clone, Copy, PartialEq, Eq, Structural)]
pub enum ParseError {
    /// The first character is not the parser's prefix.
    PrefixError(usize, char),
    /// The character right after the prefix is a space, so the name is empty.
    NameError(usize, char),
    /// A backslash inside quotes is followed by something other than `"` or `\`.
    EscapeError(usize, char),
}

} // verus!
