//! Extraction of interest, dividend and fee records from bank and brokerage
//! statement tables: schema detection, row filtering, date normalisation and
//! parsing of signed multi-currency amounts.
use vstd::prelude::*;

pub mod amount;
pub mod dates;
pub mod statement;
pub mod table;
pub mod text;

verus! {

/// What can go wrong while turning one statement into records.
#[derive(PartialEq, Eq, Structural, Debug, Clone, Copy)]
pub enum ParseError {
    /// The statement file could not be read.
    IoError,
    /// The rows of the table do not line up with its header.
    MalformedTable,
    /// The header matches neither known statement layout.
    UnsupportedSchema,
    /// A column that the detected layout needs is absent.
    MissingColumn,
    /// A date cell does not follow the layout's date grammar.
    MalformedDate,
    /// An amount cell matches none of the currency grammars.
    UnparsableAmount,
}

} // verus!
