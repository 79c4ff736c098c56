//! What the generator emits for a legalized type declaration, with names in
//! the casing of Rust items.
use crate::ast::SimpleType;
use crate::lexical::string_views;
use crate::semantics::{TypeDecl, TypeRef, UnderlyingType};
use vstd::prelude::*;

verus! {

/// The PascalCase form of an identifier.
pub uninterp spec fn pascal_case_of(s: Seq<char>) -> Seq<char>;

/// The snake_case form of an identifier.
pub uninterp spec fn snake_case_of(s: Seq<char>) -> Seq<char>;

/// Relies on `inflector::cases::pascalcase::to_pascal_case`, whose result
/// depends on the characters of its argument alone.
#[verifier::external_body]
fn pascal_case(s: &String) -> (r: String)
    ensures
        r@ == pascal_case_of(s@),
{
    inflector::cases::pascalcase::to_pascal_case(s)
}

/// Relies on `inflector::cases::snakecase::to_snake_case`, whose result
/// depends on the characters of its argument alone.
#[verifier::external_body]
fn snake_case(s: &String) -> (r: String)
    ensures
        r@ == snake_case_of(s@),
{
    inflector::cases::snakecase::to_snake_case(s)
}

/// A type in generated code: a simple type, a generated item by name, or a
/// vector of a type (for every aggregate).
#[derive(Debug, PartialEq, Eq)]
pub enum RustType {
    Simple(SimpleType),
    Named(String),
    Vec(Box<RustType>),
}

/// The item generated for a type declaration.
#[derive(Debug, PartialEq, Eq)]
pub enum RustItem {
    /// `pub type Id = Target;`
    Alias { id: String, target: RustType },
    /// `pub enum Id { item, .. }`
    Enumeration { id: String, variants: Vec<String> },
    /// `pub enum Id { Member(Box<Member>), .. }`
    Select { id: String, members: Vec<RustType> },
}

/// How generated code writes a simple type.
pub open spec fn simple_type_text(st: SimpleType) -> Seq<char> {
    match st {
        SimpleType::Number => seq!['f', '6', '4'],
        SimpleType::Real => seq!['f', '6', '4'],
        SimpleType::Integer => seq!['i', '6', '4'],
        SimpleType::Logical => seq!['O', 'p', 't', 'i', 'o', 'n', '<', 'b', 'o', 'o', 'l', '>'],
        SimpleType::Boolen => seq!['b', 'o', 'o', 'l'],
        SimpleType::String_ { .. } => seq!['S', 't', 'r', 'i', 'n', 'g'],
        SimpleType::Binary { .. } => seq!['V', 'e', 'c', '<', 'u', '8', '>'],
    }
}

/// The Rust type that generated code uses for a simple type: `LOGICAL`,
/// which may be unknown, is an optional `bool`.
pub fn simple_type_name(st: SimpleType) -> (r: &'static str)
    ensures
        r@ == simple_type_text(st),
{
    proof {
        reveal_strlit("f64");
        reveal_strlit("i64");
        reveal_strlit("Option<bool>");
        reveal_strlit("bool");
        reveal_strlit("String");
        reveal_strlit("Vec<u8>");
    }
    match st {
        SimpleType::Number => "f64",
        SimpleType::Real => "f64",
        SimpleType::Integer => "i64",
        SimpleType::Logical => "Option<bool>",
        SimpleType::Boolen => "bool",
        SimpleType::String_ { .. } => "String",
        SimpleType::Binary { .. } => "Vec<u8>",
    }
}

/// `rt` is how generated code names the resolved type `t`.
pub open spec fn rust_type_is(rt: RustType, t: TypeRef) -> bool
    decreases t,
{
    match t {
        TypeRef::SimpleType(st) => rt == RustType::Simple(st),
        TypeRef::Named { name, .. } => rt matches RustType::Named(n) && n@ == pascal_case_of(name@),
        TypeRef::SetOf { base, .. } => rt matches RustType::Vec(x) && rust_type_is(*x, *base),
        TypeRef::Bag { base, .. } => rt matches RustType::Vec(x) && rust_type_is(*x, *base),
        TypeRef::List { base, .. } => rt matches RustType::Vec(x) && rust_type_is(*x, *base),
        TypeRef::Array { base, .. } => rt matches RustType::Vec(x) && rust_type_is(*x, *base),
    }
}

/// The underlying type `u` names a type (rather than constructing an
/// enumeration or a select).
pub open spec fn names_type(u: UnderlyingType) -> bool
    decreases u,
{
    match u {
        UnderlyingType::Simple(_) => true,
        UnderlyingType::Reference(_) => true,
        UnderlyingType::SetOf { base, .. } => names_type(*base),
        UnderlyingType::Bag { base, .. } => names_type(*base),
        UnderlyingType::List { base, .. } => names_type(*base),
        UnderlyingType::Array { base, .. } => names_type(*base),
        _ => false,
    }
}

/// `rt` is how generated code names the type that `u` stands for.
pub open spec fn underlying_type_is(rt: RustType, u: UnderlyingType) -> bool
    decreases u,
{
    match u {
        UnderlyingType::Simple(t) => rust_type_is(rt, t),
        UnderlyingType::Reference(t) => rust_type_is(rt, t),
        UnderlyingType::SetOf { base, .. } => rt matches RustType::Vec(x) && underlying_type_is(*x, *base),
        UnderlyingType::Bag { base, .. } => rt matches RustType::Vec(x) && underlying_type_is(*x, *base),
        UnderlyingType::List { base, .. } => rt matches RustType::Vec(x) && underlying_type_is(*x, *base),
        UnderlyingType::Array { base, .. } => rt matches RustType::Vec(x) && underlying_type_is(*x, *base),
        _ => false,
    }
}

pub open spec fn all_cased(v: Seq<String>, names: Seq<Seq<char>>) -> bool {
    v.len() == names.len() && forall|k: int| 0 <= k < v.len() ==> #[trigger] v[k]@ == snake_case_of(names[k])
}

pub open spec fn all_rust_types(v: Seq<RustType>, ts: Seq<TypeRef>) -> bool {
    v.len() == ts.len() && forall|k: int| 0 <= k < v.len() ==> #[trigger] rust_type_is(v[k], ts[k])
}

/// The generated item for `d`: an alias for a declaration that names a
/// type, an enumeration with its items in snake_case, or a select, the
/// item's name in PascalCase. An aggregate of an enumeration or of a select
/// has no item.
pub open spec fn item_of(d: TypeDecl, r: Option<RustItem>) -> bool {
    match d.underlying_type {
        UnderlyingType::Enumeration(items) => r matches Some(RustItem::Enumeration { id, variants })
            && id@ == pascal_case_of(d.type_id@) && all_cased(variants@, string_views(items@)),
        UnderlyingType::Select(types) => r matches Some(RustItem::Select { id, members })
            && id@ == pascal_case_of(d.type_id@) && all_rust_types(members@, types@),
        u => if names_type(u) {
            r matches Some(RustItem::Alias { id, target }) && id@ == pascal_case_of(d.type_id@)
                && underlying_type_is(target, u)
        } else {
            r is None
        },
    }
}

/// How generated code names the resolved type `t`.
pub fn rust_type(t: &TypeRef) -> (r: RustType)
    ensures
        rust_type_is(r, *t),
    decreases t,
{
    match t {
        TypeRef::SimpleType(st) => RustType::Simple(*st),
        TypeRef::Named { name, .. } => RustType::Named(pascal_case(name)),
        TypeRef::SetOf { base, .. } => RustType::Vec(Box::new(rust_type(base))),
        TypeRef::Bag { base, .. } => RustType::Vec(Box::new(rust_type(base))),
        TypeRef::List { base, .. } => RustType::Vec(Box::new(rust_type(base))),
        TypeRef::Array { base, .. } => RustType::Vec(Box::new(rust_type(base))),
    }
}

/// How generated code names the type that `u` stands for, where it names one.
pub fn underlying_rust_type(u: &UnderlyingType) -> (r: Option<RustType>)
    ensures
        names_type(*u) ==> (r matches Some(rt) && underlying_type_is(rt, *u)),
        !names_type(*u) ==> r is None,
    decreases u,
{
    match u {
        UnderlyingType::Simple(t) => Some(rust_type(t)),
        UnderlyingType::Reference(t) => Some(rust_type(t)),
        UnderlyingType::SetOf { base, .. } => match underlying_rust_type(base) {
            Some(x) => Some(RustType::Vec(Box::new(x))),
            None => None,
        },
        UnderlyingType::Bag { base, .. } => match underlying_rust_type(base) {
            Some(x) => Some(RustType::Vec(Box::new(x))),
            None => None,
        },
        UnderlyingType::List { base, .. } => match underlying_rust_type(base) {
            Some(x) => Some(RustType::Vec(Box::new(x))),
            None => None,
        },
        UnderlyingType::Array { base, .. } => match underlying_rust_type(base) {
            Some(x) => Some(RustType::Vec(Box::new(x))),
            None => None,
        },
        _ => None,
    }
}

impl TypeDecl {
    /// The item that the generator emits for this declaration.
    pub fn rust_item(&self) -> (r: Option<RustItem>)
        ensures
            item_of(*self, r),
    {
        let id = pascal_case(&self.type_id);
        match &self.underlying_type {
            UnderlyingType::Enumeration(items) => {
                let mut variants: Vec<String> = Vec::new();
                let mut k: usize = 0;
                while k < items.len()
                    invariant
                        k <= items@.len(),
                        all_cased(variants@, string_views(items@.take(k as int))),
                    decreases items@.len() - k,
                {
                    variants.push(snake_case(&items[k]));
                    k += 1;
                }
                assert(items@.take(k as int) =~= items@);
                Some(RustItem::Enumeration { id, variants })
            },
            UnderlyingType::Select(types) => {
                let mut members: Vec<RustType> = Vec::new();
                let mut k: usize = 0;
                while k < types.len()
                    invariant
                        k <= types@.len(),
                        all_rust_types(members@, types@.take(k as int)),
                    decreases types@.len() - k,
                {
                    members.push(rust_type(&types[k]));
                    k += 1;
                }
                assert(types@.take(k as int) =~= types@);
                Some(RustItem::Select { id, members })
            },
            u => match underlying_rust_type(u) {
                Some(target) => Some(RustItem::Alias { id, target }),
                None => None,
            },
        }
    }
}

} // verus!
