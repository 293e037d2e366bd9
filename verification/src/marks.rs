//! The marks of the format: the fixed pieces of text that the writer puts
//! down and the validator looks for.

use vstd::prelude::*;

verus! {

/// The signature with which a file begins.
pub open spec fn signature() -> Seq<char> {
    seq!['W', 'E', 'B', 'V', 'T', 'T']
}

/// The delimiter between the two times of a timing line, which cue text
/// may not hold.
pub open spec fn arrow() -> Seq<char> {
    seq!['-', '-', '>']
}

/// The delimiter as the writer puts it down, with a space on each side.
pub open spec fn timing_separator() -> Seq<char> {
    seq![' ', '-', '-', '>', ' ']
}

/// The line feed that ends each line.
pub open spec fn nl() -> Seq<char> {
    seq!['\n']
}

} // verus!
