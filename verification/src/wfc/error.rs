//! The errors of map generation.
use vstd::prelude::*;

verus! {

/// A failure while generating a map or reading the grids that it starts from.
#[derive(Debug)]
pub enum WFCError {
    /// A seed was made for another kind of layout.
    IncompatibleSeed,
    /// A seed could not be read.
    InvalidSeed,
    /// A cell still holds alternatives where a tile was expected.
    CellNotCollapsed,
    /// Reading or writing failed.
    IOError(std::io::Error),
    /// A cell's character stands for no value.
    CellParseError,
    /// Something else went wrong.
    UnknownError,
}

/// The error of the standard library's input and output.
#[verifier::external_type_specification]
#[verifier::external_body]
pub struct ExIoError(std::io::Error);

} // verus!
