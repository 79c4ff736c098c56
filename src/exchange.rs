//! Exchange structure of a Part 21 file: data sections made of entity
//! instances, each a record with its parameters.
use vstd::prelude::*;

verus! {

/// A decimal number, `mantissa * 10^exponent`, kept as written in the file
/// (`4.0` is mantissa 40 with exponent -1).
#[derive(Debug, Clone, Copy, PartialEq, Eq)]
pub struct Real {
    pub mantissa: i64,
    pub exponent: i32,
}

impl Real {
    pub fn new(mantissa: i64, exponent: i32) -> (r: Real)
        ensures
            r.mantissa == mantissa,
            r.exponent == exponent,
    {
        Real { mantissa, exponent }
    }
}

/// A reference to another instance: `#n` for an entity instance, `@n` for a
/// value instance.
#[derive(Debug, Clone, Copy, PartialEq, Eq)]
pub enum RValue {
    Entity(u64),
    Value(u64),
}

/// One parameter of a record.
#[derive(Debug, PartialEq)]
pub enum Parameter {
    /// `NAME(param)`: an inline value of a named type.
    Typed { name: String, ty: Box<Parameter> },
    Integer(i64),
    Real(Real),
    String(String),
    /// `.NAME.`
    Enumeration(String),
    /// `"..."`
    Binary(String),
    /// `( param, .. )`
    List(Vec<Parameter>),
    /// `#n` or `@n`
    Ref(RValue),
    /// `$`
    NotProvided,
    /// `*`
    Omitted,
}

/// `NAME(param, ..)`
#[derive(Debug, PartialEq)]
pub struct Record {
    pub name: String,
    pub parameters: Vec<Parameter>,
}

/// `#n = record;` or `#n = (record record ..);`
#[derive(Debug, PartialEq)]
pub enum EntityInstance {
    Simple { name: u64, record: Record },
    Complex { name: u64, subsuper: Vec<Record> },
}

/// `DATA; .. ENDSEC;`
#[derive(Debug, PartialEq)]
pub struct DataSection {
    pub entities: Vec<EntityInstance>,
}

/// A whole exchange structure: the records of its header, and its data
/// sections in order.
#[derive(Debug, PartialEq)]
pub struct Exchange {
    pub header: Vec<Record>,
    pub data: Vec<DataSection>,
}

} // verus!
