use vstd::prelude::*;

verus! {

/// An 8-bit RGB triple. Produced outside this library by parsing a
/// human-readable color string; consumed here as a plain value.
#[derive(Clone, Copy, PartialEq, Eq, Structural, Debug)]
pub struct Color {
    pub r: u8,
    pub g: u8,
    pub b: u8,
}

/// A color string could not be parsed; carries the offending text.
#[derive(Debug)]
pub struct ParseColorError(pub String);

impl ParseColorError {
    /// The text that failed to parse.
    pub fn text(&self) -> (t: &str)
        ensures
            t@ == self.0@,
    {
        self.0.as_str()
    }
}

} // verus!
