use crate::de::column::CellKind;
use vstd::prelude::*;

verus! {

#[verifier::external_type_specification]
#[verifier::external_body]
pub struct ExUtf8Error(core::str::Utf8Error);

#[verifier::external_type_specification]
#[verifier::external_body]
pub struct ExParseIntError(core::num::ParseIntError);

#[verifier::external_type_specification]
#[verifier::external_body]
pub struct ExParseFloatError(core::num::ParseFloatError);

#[verifier::external_type_specification]
#[verifier::external_body]
pub struct ExChronoParseError(chrono::ParseError);

#[verifier::external_type_specification]
#[verifier::external_body]
pub struct ExIoError(std::io::Error);

/// Everything that can go wrong while reading a table.
#[derive(Debug)]
pub enum Error {
    Custom(String),
    ConvertText(core::str::Utf8Error),
    ConvertInt(core::num::ParseIntError),
    ConvertDec(core::num::ParseFloatError),
    ConvertDate(chrono::ParseError),
    ReadFile(std::io::Error),
    HeaderLength,
    HeaderRemain(Vec<u8>),
    RecordLength(usize, usize),
    UnknownCellType(u8),
    ContainsDots(CellKind),
    MultipleDots(u8),
    InvalidChar(char, char),
    InvalidBool(String),
    UnwrapBool,
    UnwrapDate,
}

} // verus!
