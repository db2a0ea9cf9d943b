//! The parameter codec: turns one raw request string into a typed bound
//! parameter according to the target column's semantic type and byte width.
//! String columns pass the value through; integer columns parse it into a
//! signed integer of the column's width; anything else cannot take a bound
//! parameter.

use crate::catalog::{Column, ColumnType, ColumnV};
use crate::numtext::{int_literal_val, is_int_literal, parse_i16, parse_i32, parse_i64};
use vstd::prelude::*;

verus! {

/// A typed parameter value, ready for execution-time binding.
pub enum ParameterValue {
    Int16(i16),
    Int32(i32),
    Int64(i64),
    Varchar(String),
}

/// Mathematical value of a [`ParameterValue`].
pub enum ParameterValueV {
    Int16(i16),
    Int32(i32),
    Int64(i64),
    Varchar(Seq<char>),
}

impl View for ParameterValue {
    type V = ParameterValueV;

    open spec fn view(&self) -> ParameterValueV {
        match self {
            ParameterValue::Int16(v) => ParameterValueV::Int16(*v),
            ParameterValue::Int32(v) => ParameterValueV::Int32(*v),
            ParameterValue::Int64(v) => ParameterValueV::Int64(*v),
            ParameterValue::Varchar(s) => ParameterValueV::Varchar(s@),
        }
    }
}

/// Why a raw value could not be turned into a typed parameter.
#[derive(Clone, Copy, Debug, PartialEq, Eq, Structural)]
pub enum CodecError {
    /// The value does not parse as an integer of the column's width.
    InvalidValue,
    /// The column is an integer column of a width no parameter type covers.
    UnsupportedSize,
    /// The column's semantic type cannot take a bound parameter.
    UnsupportedType,
}

impl CodecError {
    /// A short description of the failure.
    pub fn message(&self) -> (r: &'static str)
        ensures
            r@ == self.spec_message(),
    {
        match self {
            CodecError::InvalidValue => "invalid integer literal",
            CodecError::UnsupportedSize => "Not supported size for Number",
            CodecError::UnsupportedType => "Not supported type for Primary key",
        }
    }

    /// The text [`Self::message`] returns.
    pub open spec fn spec_message(self) -> Seq<char> {
        match self {
            CodecError::InvalidValue => "invalid integer literal"@,
            CodecError::UnsupportedSize => "Not supported size for Number"@,
            CodecError::UnsupportedType => "Not supported type for Primary key"@,
        }
    }
}

/// What parsing `value` against a column of type `col` must yield: the value
/// itself for string columns; a signed integer of the column's byte width for
/// integer columns, when the text is a decimal literal in that width's range;
/// an error otherwise.
pub open spec fn spec_parse(col: ColumnV, value: Seq<char>) -> Result<ParameterValueV, CodecError> {
    match col.col_type {
        ColumnType::String => Ok(ParameterValueV::Varchar(value)),
        ColumnType::Integer => if col.col_size == 2 {
            if is_int_literal(value) && i16::MIN <= int_literal_val(value) <= i16::MAX {
                Ok(ParameterValueV::Int16(int_literal_val(value) as i16))
            } else {
                Err(CodecError::InvalidValue)
            }
        } else if col.col_size == 4 {
            if is_int_literal(value) && i32::MIN <= int_literal_val(value) <= i32::MAX {
                Ok(ParameterValueV::Int32(int_literal_val(value) as i32))
            } else {
                Err(CodecError::InvalidValue)
            }
        } else if col.col_size == 8 {
            if is_int_literal(value) && i64::MIN <= int_literal_val(value) <= i64::MAX {
                Ok(ParameterValueV::Int64(int_literal_val(value) as i64))
            } else {
                Err(CodecError::InvalidValue)
            }
        } else {
            Err(CodecError::UnsupportedSize)
        },
        _ => Err(CodecError::UnsupportedType),
    }
}

/// One bound parameter: the catalog column it binds to (carrying the backend
/// type tag forward) and the typed value.
pub struct Parameter {
    pub column: Column,
    pub value: ParameterValue,
}

/// Mathematical value of a [`Parameter`].
pub struct ParameterV {
    pub column: ColumnV,
    pub value: ParameterValueV,
}

impl View for Parameter {
    type V = ParameterV;

    open spec fn view(&self) -> ParameterV {
        ParameterV { column: self.column@, value: self.value@ }
    }
}

impl Parameter {
    /// Parse one raw string into a typed parameter for `column`, exactly as
    /// [`spec_parse`] prescribes.  The returned parameter carries `column`
    /// itself, so its backend type tag always equals the catalog's.
    pub fn parse(column: &Column, value: String) -> (r: Result<Parameter, CodecError>)
        ensures
            match r {
                Ok(p) => spec_parse(column@, value@) matches Ok(v) && p@.value == v && p@.column
                    == column@,
                Err(e) => spec_parse(column@, value@) matches Err(e0) && e == e0,
            },
    {
        match column.col_type {
            ColumnType::String => Ok(
                Parameter { column: column.clone(), value: ParameterValue::Varchar(value) },
            ),
            ColumnType::Integer => {
                if column.col_size == 2 {
                    match parse_i16(value.as_str()) {
                        Some(v) => Ok(
                            Parameter { column: column.clone(), value: ParameterValue::Int16(v) },
                        ),
                        None => Err(CodecError::InvalidValue),
                    }
                } else if column.col_size == 4 {
                    match parse_i32(value.as_str()) {
                        Some(v) => Ok(
                            Parameter { column: column.clone(), value: ParameterValue::Int32(v) },
                        ),
                        None => Err(CodecError::InvalidValue),
                    }
                } else if column.col_size == 8 {
                    match parse_i64(value.as_str()) {
                        Some(v) => Ok(
                            Parameter { column: column.clone(), value: ParameterValue::Int64(v) },
                        ),
                        None => Err(CodecError::InvalidValue),
                    }
                } else {
                    Err(CodecError::UnsupportedSize)
                }
            },
            _ => Err(CodecError::UnsupportedType),
        }
    }
}

} // verus!
