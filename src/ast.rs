//! Syntax tree of EXPRESS declarations, as the parser produces them.
use vstd::prelude::*;

verus! {

/// `EXTENSIBLE` and `GENERIC_ENTITY` markers of `SELECT` and `ENUMERATION` types.
#[derive(Debug, Clone, PartialEq, Eq)]
pub enum Extensiblity {
    /// No `EXTENSIBLE`
    NonExtensible,
    /// `EXTENSIBLE`
    Extensible,
    /// `EXTENSIBLE GENERIC_ENTITY`, allowed only for `SELECT`
    GenericEntity,
}

/// A `TYPE id = underlying_type; [WHERE ..] END_TYPE;` declaration.
#[derive(Debug, PartialEq)]
pub struct TypeDecl {
    pub type_id: String,
    pub underlying_type: UnderlyingType,
    /// The `WHERE` clause as written; it is kept and not evaluated.
    pub where_clause: Option<String>,
}

/// What a `TYPE` declaration stands for.
#[derive(Debug, PartialEq)]
pub enum UnderlyingType {
    Simple(SimpleType),
    Reference(String),
    SetOf { bound: Option<Bound>, base: Box<UnderlyingType> },
    Bag { bound: Option<Bound>, base: Box<UnderlyingType> },
    List { unique: bool, bound: Option<Bound>, base: Box<UnderlyingType> },
    Array { unique: bool, optional: bool, bound: Bound, base: Box<UnderlyingType> },
    Enumeration { extensiblity: Extensiblity, items: Vec<String> },
    Select { extensiblity: Extensiblity, types: Vec<String> },
}

/// Width of a `STRING` or `BINARY` type, `(width) [FIXED]`.
#[derive(Debug, Clone, Copy, PartialEq, Eq)]
pub struct WidthSpec {
    pub width: usize,
    pub fixed: bool,
}

/// The simple data types of EXPRESS.
#[derive(Debug, Clone, Copy, PartialEq, Eq)]
pub enum SimpleType {
    Number,
    Real,
    Integer,
    Logical,
    Boolen,
    String_ { width_spec: Option<WidthSpec> },
    Binary { width_spec: Option<WidthSpec> },
}

/// The type of an entity attribute.
#[derive(Debug, PartialEq)]
pub enum ParameterType {
    /// A reference to a declared entity or type, resolved by the legalizer.
    Named(String),
    Simple(SimpleType),
    SetOf { ty: Box<ParameterType>, bound_spec: Option<Bound> },
    Bag { ty: Box<ParameterType>, bound_spec: Option<Bound> },
    List { ty: Box<ParameterType>, bound_spec: Option<Bound>, unique: bool },
    Array { ty: Box<ParameterType>, bound_spec: Option<Bound>, unique: bool, optional: bool },
    Aggregate { ty: Box<ParameterType>, label: Option<String> },
    GenericEntity(Option<String>),
    Generic(Option<String>),
}

/// Bounds of an aggregate; the expressions are kept as written, not evaluated.
#[derive(Debug, Clone, PartialEq, Eq)]
pub struct Bound {
    pub lower: String,
    pub upper: String,
}

} // verus!
