//! Legalization: resolving the names in declarations against a namespace.
use crate::ast;
use crate::ast::{Bound, ParameterType, SimpleType};
use crate::lexical::string_views;
use crate::parser::{Entity, Schema};
use vstd::prelude::*;

verus! {

/// A resolved type: a simple type, the declaration `name` at `index` of the
/// namespace, declared in schema `schema`, or an aggregate of a resolved
/// type with its bound kept as written.
#[derive(Debug, PartialEq, Eq)]
pub enum TypeRef {
    SimpleType(SimpleType),
    Named { schema: usize, index: usize, name: String },
    SetOf { bound: Option<Bound>, base: Box<TypeRef> },
    Bag { bound: Option<Bound>, base: Box<TypeRef> },
    List { bound: Option<Bound>, unique: bool, base: Box<TypeRef> },
    Array { bound: Option<Bound>, unique: bool, optional: bool, base: Box<TypeRef> },
}

/// A construct that is recognised but not handled yet.
#[derive(Debug, Clone, Copy, PartialEq, Eq)]
pub enum Construct {
    GenericType,
}

#[derive(Debug, Clone, PartialEq, Eq)]
pub enum SemanticError {
    /// A second declaration of this name in the same schema.
    DuplicateDeclaration(String),
    /// No declaration of this name in the schema.
    UnresolvedName(String),
    Unimplemented(Construct),
}

/// A declared entity or type name, and the schema it is declared in.
#[derive(Debug, Clone, PartialEq, Eq)]
pub struct Declaration {
    pub schema: usize,
    pub name: String,
}

/// The schema in which names are looked up.
#[derive(Debug, Clone, Copy, PartialEq, Eq)]
pub struct Scope {
    pub schema: usize,
}

/// Every declaration known so far, in the order of insertion.
#[derive(Debug, Clone, PartialEq, Eq)]
pub struct Namespace {
    pub decls: Vec<Declaration>,
}

/// Position of the first declaration of `name` in `schema`.
pub open spec fn find_decl(ds: Seq<Declaration>, schema: usize, name: Seq<char>) -> Option<int>
    decreases ds.len(),
{
    if ds.len() == 0 {
        None
    } else {
        match find_decl(ds.drop_last(), schema, name) {
            Some(k) => Some(k),
            None => if ds.last().schema == schema && ds.last().name@ == name {
                Some(ds.len() - 1)
            } else {
                None
            },
        }
    }
}

/// What `name` resolves to in `scope`.
pub open spec fn lookup(ds: Seq<Declaration>, scope: Scope, name: Seq<char>) -> Option<TypeRef> {
    match find_decl(ds, scope.schema, name) {
        Some(k) => Some(TypeRef::Named { schema: scope.schema, index: k as usize, name: ds[k].name }),
        None => None,
    }
}

/// All names resolved in order, or the first name that does not resolve.
pub open spec fn resolve_all(ds: Seq<Declaration>, scope: Scope, names: Seq<Seq<char>>) -> Result<Seq<TypeRef>, Seq<char>>
    decreases names.len(),
{
    if names.len() == 0 {
        Ok(seq![])
    } else {
        match resolve_all(ds, scope, names.drop_last()) {
            Err(n) => Err(n),
            Ok(ts) => match lookup(ds, scope, names.last()) {
                None => Err(names.last()),
                Some(t) => Ok(ts.push(t)),
            },
        }
    }
}

impl Namespace {
    pub fn new() -> (r: Namespace)
        ensures
            r.decls@.len() == 0,
    {
        Namespace { decls: Vec::new() }
    }

    /// Resolves `name` in `scope`; fails with `UnresolvedName` where the
    /// schema declares no such name.
    pub fn lookup_type(&self, scope: &Scope, name: &String) -> (r: Result<TypeRef, SemanticError>)
        ensures
            match lookup(self.decls@, *scope, name@) {
                Some(t) => r == Ok::<TypeRef, SemanticError>(t),
                None => r matches Err(SemanticError::UnresolvedName(n)) && n@ == name@,
            },
    {
        let mut k: usize = 0;
        while k < self.decls.len()
            invariant
                k <= self.decls@.len(),
                find_decl(self.decls@.take(k as int), scope.schema, name@) is None,
            decreases self.decls@.len() - k,
        {
            assert(self.decls@.take(k + 1).drop_last() =~= self.decls@.take(k as int));
            if self.decls[k].schema == scope.schema && self.decls[k].name == *name {
                proof {
                    lemma_find_decl_prefix(self.decls@, (k + 1) as int, scope.schema, name@);
                }
                return Ok(TypeRef::Named { schema: scope.schema, index: k, name: self.decls[k].name.clone() });
            }
            k += 1;
        }
        assert(self.decls@.take(k as int) =~= self.decls@);
        Err(SemanticError::UnresolvedName(name.clone()))
    }

    /// Declares `name` in `scope`; fails with `DuplicateDeclaration` where the
    /// schema declares it already.
    pub fn insert(&mut self, scope: &Scope, name: &String) -> (r: Result<TypeRef, SemanticError>)
        ensures
            match lookup(old(self).decls@, *scope, name@) {
                Some(t) => r matches Err(SemanticError::DuplicateDeclaration(n)) && n@ == name@
                    && *final(self) == *old(self),
                None => final(self).decls@ == old(self).decls@.push(Declaration { schema: scope.schema, name: *name })
                    && r == Ok::<TypeRef, SemanticError>(TypeRef::Named { schema: scope.schema, index: old(self).decls@.len() as usize, name: *name })
                    && lookup(final(self).decls@, *scope, name@) == Some(r->Ok_0),
            },
    {
        match self.lookup_type(scope, name) {
            Ok(_) => Err(SemanticError::DuplicateDeclaration(name.clone())),
            Err(_) => {
                let index = self.decls.len();
                let ghost before = self.decls@;
                self.decls.push(Declaration { schema: scope.schema, name: name.clone() });
                assert(self.decls@.drop_last() =~= before);
                Ok(TypeRef::Named { schema: scope.schema, index, name: name.clone() })
            },
        }
    }
}

/// A match at position `k - 1`, with none before it, is the first match of
/// the whole sequence.
proof fn lemma_find_decl_prefix(ds: Seq<Declaration>, k: int, schema: usize, name: Seq<char>)
    requires
        1 <= k <= ds.len(),
        find_decl(ds.take(k - 1), schema, name) is None,
        ds[k - 1].schema == schema,
        ds[k - 1].name@ == name,
    ensures
        find_decl(ds, schema, name) == Some(k - 1),
    decreases ds.len() - k,
{
    if k == ds.len() {
        assert(ds.take(k - 1) =~= ds.drop_last());
    } else {
        assert(ds.drop_last().take(k - 1) =~= ds.take(k - 1));
        lemma_find_decl_prefix(ds.drop_last(), k, schema, name);
    }
}

/// Why an attribute type did not resolve.
pub enum AttrFailure {
    Unresolved(Seq<char>),
    Unsupported(Construct),
}

/// What an attribute type resolves to.
/// Aggregates keep their kind, bound and flags, with the base type resolved.
pub open spec fn resolve_param(ds: Seq<Declaration>, scope: Scope, t: ParameterType) -> Result<TypeRef, AttrFailure>
    decreases t,
{
    match t {
        ParameterType::Simple(st) => Ok(TypeRef::SimpleType(st)),
        ParameterType::Named(n) => match lookup(ds, scope, n@) {
            Some(r) => Ok(r),
            None => Err(AttrFailure::Unresolved(n@)),
        },
        ParameterType::SetOf { ty, bound_spec } => match resolve_param(ds, scope, *ty) {
            Ok(b) => Ok(TypeRef::SetOf { bound: bound_spec, base: Box::new(b) }),
            Err(f) => Err(f),
        },
        ParameterType::Bag { ty, bound_spec } => match resolve_param(ds, scope, *ty) {
            Ok(b) => Ok(TypeRef::Bag { bound: bound_spec, base: Box::new(b) }),
            Err(f) => Err(f),
        },
        ParameterType::List { ty, bound_spec, unique } => match resolve_param(ds, scope, *ty) {
            Ok(b) => Ok(TypeRef::List { bound: bound_spec, unique, base: Box::new(b) }),
            Err(f) => Err(f),
        },
        ParameterType::Array { ty, bound_spec, unique, optional } => match resolve_param(ds, scope, *ty) {
            Ok(b) => Ok(TypeRef::Array { bound: bound_spec, unique, optional, base: Box::new(b) }),
            Err(f) => Err(f),
        },
        _ => Err(AttrFailure::Unsupported(Construct::GenericType)),
    }
}

/// The types of all attributes resolved in order, or the first failure.
pub open spec fn resolve_attrs(ds: Seq<Declaration>, scope: Scope, attrs: Seq<(String, ParameterType, bool)>) -> Result<Seq<TypeRef>, AttrFailure>
    decreases attrs.len(),
{
    if attrs.len() == 0 {
        Ok(seq![])
    } else {
        match resolve_attrs(ds, scope, attrs.drop_last()) {
            Err(f) => Err(f),
            Ok(ts) => match resolve_param(ds, scope, attrs.last().1) {
                Err(f) => Err(f),
                Ok(t) => Ok(ts.push(t)),
            },
        }
    }
}

/// `e` is the error that reports the failure `f`.
pub open spec fn reports(e: SemanticError, f: AttrFailure) -> bool {
    match f {
        AttrFailure::Unresolved(n) => e matches SemanticError::UnresolvedName(m) && m@ == n,
        AttrFailure::Unsupported(c) => e == SemanticError::Unimplemented(c),
    }
}

fn copy_strings(v: &Vec<String>) -> (r: Vec<String>)
    ensures
        r@ == v@,
{
    let mut out: Vec<String> = Vec::new();
    let mut k: usize = 0;
    while k < v.len()
        invariant
            k <= v@.len(),
            out@ == v@.take(k as int),
        decreases v@.len() - k,
    {
        out.push(v[k].clone());
        assert(v@.take(k + 1) =~= v@.take(k as int).push(v@[k as int]));
        k += 1;
    }
    assert(v@.take(k as int) =~= v@);
    out
}

fn resolve_names(ns: &Namespace, scope: &Scope, names: &Vec<String>) -> (r: Result<Vec<TypeRef>, SemanticError>)
    ensures
        match resolve_all(ns.decls@, *scope, string_views(names@)) {
            Ok(ts) => r matches Ok(v) && v@ == ts,
            Err(n) => r matches Err(SemanticError::UnresolvedName(m)) && m@ == n,
        },
{
    let ghost views = string_views(names@);
    let mut out: Vec<TypeRef> = Vec::new();
    let mut k: usize = 0;
    assert(views.take(0) =~= seq![]);
    while k < names.len()
        invariant
            views == string_views(names@),
            k <= names@.len(),
            resolve_all(ns.decls@, *scope, views.take(k as int)) == Ok::<Seq<TypeRef>, Seq<char>>(out@),
        decreases names@.len() - k,
    {
        assert(views.take(k + 1).drop_last() =~= views.take(k as int));
        assert(views.take(k + 1).last() == names@[k as int]@);
        match ns.lookup_type(scope, &names[k]) {
            Ok(t) => out.push(t),
            Err(e) => {
                proof {
                    lemma_resolve_all_prefix_err(ns.decls@, *scope, views, k + 1);
                }
                return Err(e);
            },
        }
        k += 1;
    }
    assert(views.take(k as int) =~= views);
    Ok(out)
}

/// A failure in a prefix is the failure of the whole list.
proof fn lemma_resolve_all_prefix_err(ds: Seq<Declaration>, scope: Scope, names: Seq<Seq<char>>, k: int)
    requires
        0 <= k <= names.len(),
        resolve_all(ds, scope, names.take(k)) is Err,
    ensures
        resolve_all(ds, scope, names) == resolve_all(ds, scope, names.take(k)),
    decreases names.len() - k,
{
    if k < names.len() {
        assert(names.drop_last().take(k) =~= names.take(k));
        lemma_resolve_all_prefix_err(ds, scope, names.drop_last(), k);
    } else {
        assert(names.take(k) =~= names);
    }
}

/// Legalizer totality: a list of names resolves exactly when each of them is
/// declared in the scope; otherwise the failure names one that is not.
pub proof fn lemma_resolve_all_total(ds: Seq<Declaration>, scope: Scope, names: Seq<Seq<char>>)
    ensures
        resolve_all(ds, scope, names) is Ok <==> forall|k: int|
            0 <= k < names.len() ==> #[trigger] lookup(ds, scope, names[k]) is Some,
        resolve_all(ds, scope, names) matches Err(n) ==> exists|k: int|
            0 <= k < names.len() && names[k] == n && #[trigger] lookup(ds, scope, names[k]) is None,
        resolve_all(ds, scope, names) matches Ok(ts) ==> ts.len() == names.len() && forall|k: int|
            0 <= k < names.len() ==> lookup(ds, scope, names[k]) == Some(#[trigger] ts[k]),
    decreases names.len(),
{
    if names.len() > 0 {
        let init = names.drop_last();
        lemma_resolve_all_total(ds, scope, init);
        assert forall|k: int| 0 <= k < init.len() implies init[k] == names[k] by {}
        if resolve_all(ds, scope, init) is Ok && lookup(ds, scope, names.last()) is Some {
            let ts = resolve_all(ds, scope, names)->Ok_0;
            assert forall|k: int| 0 <= k < names.len() implies lookup(ds, scope, names[k]) == Some(#[trigger] ts[k]) by {
                if k < init.len() {
                    assert(lookup(ds, scope, init[k]) == Some(resolve_all(ds, scope, init)->Ok_0[k]));
                }
            }
        }
        if resolve_all(ds, scope, init) is Err {
            let n = resolve_all(ds, scope, init)->Err_0;
            let k = choose|k: int| 0 <= k < init.len() && init[k] == n && #[trigger] lookup(ds, scope, init[k]) is None;
            assert(names[k] == n && lookup(ds, scope, names[k]) is None);
        }
        if resolve_all(ds, scope, init) is Ok && lookup(ds, scope, names.last()) is None {
            assert(lookup(ds, scope, names[names.len() - 1]) is None);
        }
    }
}

/// A type declaration whose names are resolved.
#[derive(Debug, PartialEq, Eq)]
pub enum UnderlyingType {
    Simple(TypeRef),
    Reference(TypeRef),
    SetOf { bound: Option<Bound>, base: Box<UnderlyingType> },
    Bag { bound: Option<Bound>, base: Box<UnderlyingType> },
    List { unique: bool, bound: Option<Bound>, base: Box<UnderlyingType> },
    Array { unique: bool, optional: bool, bound: Bound, base: Box<UnderlyingType> },
    Enumeration(Vec<String>),
    Select(Vec<TypeRef>),
}

/// `r` is the outcome of legalizing `input`: each name resolved in `scope`,
/// enumeration items kept, and aggregates kept with their bound and flags
/// and their base legalized in turn, or failing as their base fails.
pub open spec fn legalized(ds: Seq<Declaration>, scope: Scope, input: ast::UnderlyingType, r: Result<UnderlyingType, SemanticError>) -> bool
    decreases input,
{
    match input {
        ast::UnderlyingType::Simple(st) => r == Ok::<UnderlyingType, SemanticError>(
            UnderlyingType::Simple(TypeRef::SimpleType(st)),
        ),
        ast::UnderlyingType::Reference(n) => match lookup(ds, scope, n@) {
            Some(t) => r == Ok::<UnderlyingType, SemanticError>(UnderlyingType::Reference(t)),
            None => r matches Err(SemanticError::UnresolvedName(m)) && m@ == n@,
        },
        ast::UnderlyingType::Enumeration { items, .. } => r matches Ok(UnderlyingType::Enumeration(v))
            && v@ == items@,
        ast::UnderlyingType::Select { types, .. } => match resolve_all(ds, scope, string_views(types@)) {
            Ok(ts) => r matches Ok(UnderlyingType::Select(v)) && v@ == ts,
            Err(n) => r matches Err(SemanticError::UnresolvedName(m)) && m@ == n,
        },
        ast::UnderlyingType::SetOf { bound, base } => match r {
            Ok(UnderlyingType::SetOf { bound: b, base: x }) => b == bound && legalized(ds, scope, *base, Ok(*x)),
            Ok(_) => false,
            Err(e) => legalized(ds, scope, *base, Err(e)),
        },
        ast::UnderlyingType::Bag { bound, base } => match r {
            Ok(UnderlyingType::Bag { bound: b, base: x }) => b == bound && legalized(ds, scope, *base, Ok(*x)),
            Ok(_) => false,
            Err(e) => legalized(ds, scope, *base, Err(e)),
        },
        ast::UnderlyingType::List { unique, bound, base } => match r {
            Ok(UnderlyingType::List { unique: u, bound: b, base: x }) => u == unique && b == bound
                && legalized(ds, scope, *base, Ok(*x)),
            Ok(_) => false,
            Err(e) => legalized(ds, scope, *base, Err(e)),
        },
        ast::UnderlyingType::Array { unique, optional, bound, base } => match r {
            Ok(UnderlyingType::Array { unique: u, optional: o, bound: b, base: x }) => u == unique && o == optional
                && b == bound && legalized(ds, scope, *base, Ok(*x)),
            Ok(_) => false,
            Err(e) => legalized(ds, scope, *base, Err(e)),
        },
    }
}

fn copy_bound(b: &Bound) -> (r: Bound)
    ensures
        r == *b,
{
    Bound { lower: b.lower.clone(), upper: b.upper.clone() }
}

fn copy_opt_bound(b: &Option<Bound>) -> (r: Option<Bound>)
    ensures
        r == *b,
{
    match b {
        Some(x) => Some(copy_bound(x)),
        None => None,
    }
}

impl UnderlyingType {
    /// Resolves the names that `input` refers to. Enumeration items stay as
    /// they are; aggregates keep their bound and flags around their
    /// legalized base.
    pub fn legalize(ns: &Namespace, scope: &Scope, input: &ast::UnderlyingType) -> (r: Result<UnderlyingType, SemanticError>)
        ensures
            legalized(ns.decls@, *scope, *input, r),
        decreases input,
    {
        match input {
            ast::UnderlyingType::Simple(st) => Ok(UnderlyingType::Simple(TypeRef::SimpleType(*st))),
            ast::UnderlyingType::Reference(name) => match ns.lookup_type(scope, name) {
                Ok(t) => Ok(UnderlyingType::Reference(t)),
                Err(e) => Err(e),
            },
            ast::UnderlyingType::Enumeration { items, .. } => Ok(UnderlyingType::Enumeration(copy_strings(items))),
            ast::UnderlyingType::Select { types, .. } => match resolve_names(ns, scope, types) {
                Ok(v) => Ok(UnderlyingType::Select(v)),
                Err(e) => Err(e),
            },
            ast::UnderlyingType::SetOf { bound, base } => match UnderlyingType::legalize(ns, scope, base) {
                Ok(x) => Ok(UnderlyingType::SetOf { bound: copy_opt_bound(bound), base: Box::new(x) }),
                Err(e) => Err(e),
            },
            ast::UnderlyingType::Bag { bound, base } => match UnderlyingType::legalize(ns, scope, base) {
                Ok(x) => Ok(UnderlyingType::Bag { bound: copy_opt_bound(bound), base: Box::new(x) }),
                Err(e) => Err(e),
            },
            ast::UnderlyingType::List { unique, bound, base } => match UnderlyingType::legalize(ns, scope, base) {
                Ok(x) => Ok(UnderlyingType::List { unique: *unique, bound: copy_opt_bound(bound), base: Box::new(x) }),
                Err(e) => Err(e),
            },
            ast::UnderlyingType::Array { unique, optional, bound, base } => match UnderlyingType::legalize(ns, scope, base) {
                Ok(x) => Ok(UnderlyingType::Array {
                    unique: *unique,
                    optional: *optional,
                    bound: copy_bound(bound),
                    base: Box::new(x),
                }),
                Err(e) => Err(e),
            },
        }
    }
}

/// A `TYPE` declaration whose names are resolved.
#[derive(Debug, PartialEq, Eq)]
pub struct TypeDecl {
    pub type_id: String,
    pub underlying_type: UnderlyingType,
}

impl TypeDecl {
    /// Resolves the names in the declaration's underlying type; the `WHERE`
    /// clause is not evaluated.
    pub fn legalize(ns: &Namespace, scope: &Scope, type_decl: &ast::TypeDecl) -> (r: Result<TypeDecl, SemanticError>)
        ensures
            match r {
                Ok(d) => d.type_id@ == type_decl.type_id@
                    && legalized(ns.decls@, *scope, type_decl.underlying_type, Ok(d.underlying_type)),
                Err(e) => legalized(ns.decls@, *scope, type_decl.underlying_type, Err(e)),
            },
    {
        match UnderlyingType::legalize(ns, scope, &type_decl.underlying_type) {
            Ok(u) => Ok(TypeDecl { type_id: type_decl.type_id.clone(), underlying_type: u }),
            Err(e) => Err(e),
        }
    }
}

/// An entity whose attribute types are resolved, each attribute with its
/// `OPTIONAL` flag.
#[derive(Debug, PartialEq, Eq)]
pub struct LegalEntity {
    pub name: String,
    pub attributes: Vec<(String, TypeRef, bool)>,
}

/// A schema whose entities are declared in a namespace and resolved in it.
#[derive(Debug, PartialEq, Eq)]
pub struct LegalSchema {
    pub name: String,
    pub entities: Vec<LegalEntity>,
}

/// `r` holds the names of `attrs` with the resolved types `ts`.
pub open spec fn attrs_resolved(r: Seq<(String, TypeRef, bool)>, attrs: Seq<(String, ParameterType, bool)>, ts: Seq<TypeRef>) -> bool {
    r.len() == attrs.len() && ts.len() == attrs.len() && forall|k: int|
        0 <= k < r.len() ==> #[trigger] r[k].0@ == attrs[k].0@ && r[k].1 == ts[k] && r[k].2 == attrs[k].2
}

impl LegalEntity {
    /// Resolves the type of each attribute of `e` in `scope`: fails at the
    /// first attribute whose type names no declaration, or is an aggregate or
    /// generic type.
    pub fn legalize(ns: &Namespace, scope: &Scope, e: &Entity) -> (r: Result<LegalEntity, SemanticError>)
        ensures
            match resolve_attrs(ns.decls@, *scope, e.attributes@) {
                Ok(ts) => r matches Ok(le) && le.name@ == e.name@ && attrs_resolved(le.attributes@, e.attributes@, ts),
                Err(f) => r matches Err(err) && reports(err, f),
            },
    {
        let ghost attrs = e.attributes@;
        let mut out: Vec<(String, TypeRef, bool)> = Vec::new();
        let mut k: usize = 0;
        assert(attrs.take(0) =~= seq![]);
        while k < e.attributes.len()
            invariant
                attrs == e.attributes@,
                k <= attrs.len(),
                resolve_attrs(ns.decls@, *scope, attrs.take(k as int)) matches Ok(ts)
                    && attrs_resolved(out@, attrs.take(k as int), ts),
            decreases attrs.len() - k,
        {
            assert(attrs.take(k + 1).drop_last() =~= attrs.take(k as int));
            let ghost prev = out@;
            let ghost ts = resolve_attrs(ns.decls@, *scope, attrs.take(k as int))->Ok_0;
            let t = match resolve_parameter(ns, scope, &e.attributes[k].1) {
                Ok(t) => t,
                Err(err) => {
                    proof {
                        lemma_resolve_attrs_prefix_err(ns.decls@, *scope, attrs, k + 1);
                    }
                    return Err(err);
                },
            };
            out.push((e.attributes[k].0.clone(), t, e.attributes[k].2));
            proof {
                let ts2 = ts.push(t);
                assert(resolve_attrs(ns.decls@, *scope, attrs.take(k + 1)) == Ok::<Seq<TypeRef>, AttrFailure>(ts2));
                assert forall|m: int| 0 <= m < out@.len() implies #[trigger] out@[m].0@ == attrs.take(k + 1)[m].0@
                    && out@[m].1 == ts2[m] && out@[m].2 == attrs.take(k + 1)[m].2 by {
                    if m < k {
                        assert(out@[m] == prev[m]);
                        assert(prev[m].0@ == attrs.take(k as int)[m].0@);
                        assert(attrs.take(k + 1)[m] == attrs.take(k as int)[m]);
                    }
                }
                assert(attrs_resolved(out@, attrs.take(k + 1), ts2));
            }
            k += 1;
        }
        assert(attrs.take(k as int) =~= attrs);
        Ok(LegalEntity { name: e.name.clone(), attributes: out })
    }
}

fn resolve_parameter(ns: &Namespace, scope: &Scope, t: &ParameterType) -> (r: Result<TypeRef, SemanticError>)
    ensures
        match resolve_param(ns.decls@, *scope, *t) {
            Ok(x) => r == Ok::<TypeRef, SemanticError>(x),
            Err(f) => r matches Err(e) && reports(e, f),
        },
    decreases t,
{
    match t {
        ParameterType::Simple(st) => Ok(TypeRef::SimpleType(*st)),
        ParameterType::Named(n) => ns.lookup_type(scope, n),
        ParameterType::SetOf { ty, bound_spec } => match resolve_parameter(ns, scope, ty) {
            Ok(b) => Ok(TypeRef::SetOf { bound: copy_opt_bound(bound_spec), base: Box::new(b) }),
            Err(e) => Err(e),
        },
        ParameterType::Bag { ty, bound_spec } => match resolve_parameter(ns, scope, ty) {
            Ok(b) => Ok(TypeRef::Bag { bound: copy_opt_bound(bound_spec), base: Box::new(b) }),
            Err(e) => Err(e),
        },
        ParameterType::List { ty, bound_spec, unique } => match resolve_parameter(ns, scope, ty) {
            Ok(b) => Ok(TypeRef::List { bound: copy_opt_bound(bound_spec), unique: *unique, base: Box::new(b) }),
            Err(e) => Err(e),
        },
        ParameterType::Array { ty, bound_spec, unique, optional } => match resolve_parameter(ns, scope, ty) {
            Ok(b) => Ok(TypeRef::Array {
                bound: copy_opt_bound(bound_spec),
                unique: *unique,
                optional: *optional,
                base: Box::new(b),
            }),
            Err(e) => Err(e),
        },
        _ => Err(SemanticError::Unimplemented(Construct::GenericType)),
    }
}

proof fn lemma_resolve_attrs_prefix_err(ds: Seq<Declaration>, scope: Scope, attrs: Seq<(String, ParameterType, bool)>, k: int)
    requires
        0 <= k <= attrs.len(),
        resolve_attrs(ds, scope, attrs.take(k)) is Err,
    ensures
        resolve_attrs(ds, scope, attrs) == resolve_attrs(ds, scope, attrs.take(k)),
    decreases attrs.len() - k,
{
    if k < attrs.len() {
        assert(attrs.drop_last().take(k) =~= attrs.take(k));
        lemma_resolve_attrs_prefix_err(ds, scope, attrs.drop_last(), k);
    } else {
        assert(attrs.take(k) =~= attrs);
    }
}

pub open spec fn entity_names(es: Seq<Entity>) -> Seq<Seq<char>> {
    es.map_values(|e: Entity| e.name@)
}

/// Position of the first name that repeats an earlier one.
pub open spec fn first_repeat(names: Seq<Seq<char>>) -> Option<int>
    decreases names.len(),
{
    if names.len() == 0 {
        None
    } else {
        match first_repeat(names.drop_last()) {
            Some(k) => Some(k),
            None => if names.drop_last().contains(names.last()) {
                Some(names.len() - 1)
            } else {
                None
            },
        }
    }
}

/// The declarations of the entities `es` in `scope`, in order.
pub open spec fn declared(scope: Scope, es: Seq<Entity>) -> Seq<Declaration> {
    es.map_values(|e: Entity| Declaration { schema: scope.schema, name: e.name })
}

/// The resolved attribute types of each entity, or the first failure.
pub open spec fn resolve_entities(ds: Seq<Declaration>, scope: Scope, es: Seq<Entity>) -> Result<Seq<Seq<TypeRef>>, AttrFailure>
    decreases es.len(),
{
    if es.len() == 0 {
        Ok(seq![])
    } else {
        match resolve_entities(ds, scope, es.drop_last()) {
            Err(f) => Err(f),
            Ok(tss) => match resolve_attrs(ds, scope, es.last().attributes@) {
                Err(f) => Err(f),
                Ok(ts) => Ok(tss.push(ts)),
            },
        }
    }
}

pub open spec fn entities_resolved(r: Seq<LegalEntity>, es: Seq<Entity>, tss: Seq<Seq<TypeRef>>) -> bool {
    r.len() == es.len() && tss.len() == es.len() && forall|k: int|
        0 <= k < r.len() ==> #[trigger] r[k].name@ == es[k].name@ && attrs_resolved(r[k].attributes@, es[k].attributes@, tss[k])
}

proof fn lemma_find_decl_some(ds: Seq<Declaration>, schema: usize, name: Seq<char>)
    ensures
        find_decl(ds, schema, name) is Some <==> exists|j: int|
            0 <= j < ds.len() && #[trigger] ds[j].schema == schema && ds[j].name@ == name,
    decreases ds.len(),
{
    if ds.len() > 0 {
        lemma_find_decl_some(ds.drop_last(), schema, name);
        if find_decl(ds.drop_last(), schema, name) is Some {
            let j = choose|j: int| 0 <= j < ds.drop_last().len() && #[trigger] ds.drop_last()[j].schema == schema
                && ds.drop_last()[j].name@ == name;
            assert(ds[j].schema == schema);
        }
        if exists|j: int| 0 <= j < ds.len() && #[trigger] ds[j].schema == schema && ds[j].name@ == name {
            let j = choose|j: int| 0 <= j < ds.len() && #[trigger] ds[j].schema == schema && ds[j].name@ == name;
            if j < ds.len() - 1 {
                assert(ds.drop_last()[j].schema == schema);
            }
        }
    }
}

proof fn lemma_declared_lookup(scope: Scope, es: Seq<Entity>, name: Seq<char>)
    ensures
        lookup(declared(scope, es), scope, name) is Some <==> entity_names(es).contains(name),
{
    let ds = declared(scope, es);
    lemma_find_decl_some(ds, scope.schema, name);
    if entity_names(es).contains(name) {
        let j = choose|j: int| 0 <= j < entity_names(es).len() && entity_names(es)[j] == name;
        assert(ds[j].schema == scope.schema);
    }
    if lookup(ds, scope, name) is Some {
        let j = choose|j: int| 0 <= j < ds.len() && #[trigger] ds[j].schema == scope.schema && ds[j].name@ == name;
        assert(entity_names(es)[j] == name);
    }
}

proof fn lemma_first_repeat_prefix(names: Seq<Seq<char>>, k: int)
    requires
        0 <= k <= names.len(),
        first_repeat(names.take(k)) is Some,
    ensures
        first_repeat(names) == first_repeat(names.take(k)),
    decreases names.len() - k,
{
    if k < names.len() {
        assert(names.drop_last().take(k) =~= names.take(k));
        lemma_first_repeat_prefix(names.drop_last(), k);
    } else {
        assert(names.take(k) =~= names);
    }
}

proof fn lemma_resolve_entities_prefix_err(ds: Seq<Declaration>, scope: Scope, es: Seq<Entity>, k: int)
    requires
        0 <= k <= es.len(),
        resolve_entities(ds, scope, es.take(k)) is Err,
    ensures
        resolve_entities(ds, scope, es) == resolve_entities(ds, scope, es.take(k)),
    decreases es.len() - k,
{
    if k < es.len() {
        assert(es.drop_last().take(k) =~= es.take(k));
        lemma_resolve_entities_prefix_err(ds, scope, es.drop_last(), k);
    } else {
        assert(es.take(k) =~= es);
    }
}

impl LegalSchema {
    /// Legalizes a schema in two passes. The index pass declares every entity
    /// in `scope`, in order, and fails with `DuplicateDeclaration` at the first
    /// name declared twice. The resolve pass then resolves every attribute
    /// type in that namespace and fails at the first that does not resolve.
    /// Returns the namespace with the legalized schema.
    pub fn legalize(scope: &Scope, schema: &Schema) -> (r: Result<(Namespace, LegalSchema), SemanticError>)
        ensures
            match first_repeat(entity_names(schema.entities@)) {
                Some(k) => r matches Err(SemanticError::DuplicateDeclaration(n)) && n@ == schema.entities@[k].name@,
                None => match resolve_entities(declared(*scope, schema.entities@), *scope, schema.entities@) {
                    Ok(tss) => r matches Ok((ns, ls)) && ns.decls@ == declared(*scope, schema.entities@)
                        && ls.name@ == schema.name@ && entities_resolved(ls.entities@, schema.entities@, tss),
                    Err(f) => r matches Err(e) && reports(e, f),
                },
            },
    {
        let ghost es = schema.entities@;
        let ghost names = entity_names(es);
        let mut ns = Namespace::new();
        let mut k: usize = 0;
        assert(es.take(0).map_values(|e: Entity| Declaration { schema: scope.schema, name: e.name }) =~= seq![]);
        assert(names.take(0) =~= seq![]);
        while k < schema.entities.len()
            invariant
                es == schema.entities@,
                names == entity_names(es),
                k <= es.len(),
                ns.decls@ == declared(*scope, es.take(k as int)),
                first_repeat(names.take(k as int)) is None,
            decreases es.len() - k,
        {
            proof {
                lemma_declared_lookup(*scope, es.take(k as int), es[k as int].name@);
                assert(entity_names(es.take(k as int)) =~= names.take(k as int));
                assert(names.take(k + 1).drop_last() =~= names.take(k as int));
                assert(names.take(k + 1).last() == es[k as int].name@);
            }
            match ns.insert(scope, &schema.entities[k].name) {
                Ok(_) => {},
                Err(e) => {
                    proof {
                        lemma_first_repeat_prefix(names, k + 1);
                    }
                    return Err(e);
                },
            }
            assert(declared(*scope, es.take(k + 1)) =~= declared(*scope, es.take(k as int)).push(
                Declaration { schema: scope.schema, name: es[k as int].name },
            ));
            k += 1;
        }
        assert(es.take(k as int) =~= es);
        assert(names.take(k as int) =~= names);
        let ghost ds = ns.decls@;
        let mut entities: Vec<LegalEntity> = Vec::new();
        let mut j: usize = 0;
        assert(es.take(0) =~= seq![]);
        while j < schema.entities.len()
            invariant
                es == schema.entities@,
                ds == ns.decls@,
                ds == declared(*scope, es),
                first_repeat(entity_names(es)) is None,
                j <= es.len(),
                resolve_entities(ds, *scope, es.take(j as int)) matches Ok(tss)
                    && entities_resolved(entities@, es.take(j as int), tss),
            decreases es.len() - j,
        {
            assert(es.take(j + 1).drop_last() =~= es.take(j as int));
            assert(es.take(j + 1).last() == es[j as int]);
            let ghost prev = entities@;
            let ghost tss = resolve_entities(ds, *scope, es.take(j as int))->Ok_0;
            let le = match LegalEntity::legalize(&ns, scope, &schema.entities[j]) {
                Ok(le) => le,
                Err(e) => {
                    proof {
                        lemma_resolve_entities_prefix_err(ds, *scope, es, j + 1);
                    }
                    return Err(e);
                },
            };
            entities.push(le);
            proof {
                let tss2 = tss.push(resolve_attrs(ds, *scope, es[j as int].attributes@)->Ok_0);
                assert forall|m: int| 0 <= m < entities@.len() implies #[trigger] entities@[m].name@ == es.take(j + 1)[m].name@
                    && attrs_resolved(entities@[m].attributes@, es.take(j + 1)[m].attributes@, tss2[m]) by {
                    if m < j {
                        assert(entities@[m] == prev[m]);
                        assert(prev[m].name@ == es.take(j as int)[m].name@);
                    }
                }
                assert(entities_resolved(entities@, es.take(j + 1), tss2));
            }
            j += 1;
        }
        assert(es.take(j as int) =~= es);
        Ok((ns, LegalSchema { name: schema.name.clone(), entities }))
    }
}

/// A type fails to resolve for a name only where that name is not declared.
pub proof fn lemma_resolve_param_unresolved(ds: Seq<Declaration>, scope: Scope, t: ParameterType)
    ensures
        resolve_param(ds, scope, t) matches Err(AttrFailure::Unresolved(n)) ==> lookup(ds, scope, n) is None,
    decreases t,
{
    match t {
        ParameterType::SetOf { ty, .. } => lemma_resolve_param_unresolved(ds, scope, *ty),
        ParameterType::Bag { ty, .. } => lemma_resolve_param_unresolved(ds, scope, *ty),
        ParameterType::List { ty, .. } => lemma_resolve_param_unresolved(ds, scope, *ty),
        ParameterType::Array { ty, .. } => lemma_resolve_param_unresolved(ds, scope, *ty),
        _ => {},
    }
}

/// Legalizer totality for entities: the attributes resolve exactly when
/// each of their types does (aggregates included); a failure is that of one
/// attribute, and a failure for a name is for a name that is not declared.
pub proof fn lemma_resolve_attrs_total(ds: Seq<Declaration>, scope: Scope, attrs: Seq<(String, ParameterType, bool)>)
    ensures
        resolve_attrs(ds, scope, attrs) is Ok <==> forall|k: int|
            0 <= k < attrs.len() ==> #[trigger] resolve_param(ds, scope, attrs[k].1) is Ok,
        resolve_attrs(ds, scope, attrs) matches Err(f) ==> exists|k: int|
            0 <= k < attrs.len() && #[trigger] resolve_param(ds, scope, attrs[k].1) == Err::<TypeRef, AttrFailure>(f),
        resolve_attrs(ds, scope, attrs) matches Err(AttrFailure::Unresolved(n)) ==> lookup(ds, scope, n) is None,
    decreases attrs.len(),
{
    if attrs.len() > 0 {
        let init = attrs.drop_last();
        lemma_resolve_attrs_total(ds, scope, init);
        assert forall|k: int| 0 <= k < init.len() implies init[k] == attrs[k] by {}
        if resolve_attrs(ds, scope, init) is Err {
            let f = resolve_attrs(ds, scope, init)->Err_0;
            let k = choose|k: int| 0 <= k < init.len() && #[trigger] resolve_param(ds, scope, init[k].1) == Err::<TypeRef, AttrFailure>(f);
            assert(resolve_param(ds, scope, attrs[k].1) == Err::<TypeRef, AttrFailure>(f));
        } else if resolve_param(ds, scope, attrs.last().1) is Err {
            lemma_resolve_param_unresolved(ds, scope, attrs.last().1);
            assert(resolve_param(ds, scope, attrs[attrs.len() - 1].1) is Err);
        }
    }
}

/// Every name that `u` mentions, in a reference, a select or the base of an
/// aggregate, is declared in `scope`.
pub open spec fn all_names_declared(ds: Seq<Declaration>, scope: Scope, u: ast::UnderlyingType) -> bool
    decreases u,
{
    match u {
        ast::UnderlyingType::Reference(n) => lookup(ds, scope, n@) is Some,
        ast::UnderlyingType::Select { types, .. } => forall|k: int|
            0 <= k < types@.len() ==> #[trigger] lookup(ds, scope, types@[k]@) is Some,
        ast::UnderlyingType::SetOf { base, .. } => all_names_declared(ds, scope, *base),
        ast::UnderlyingType::Bag { base, .. } => all_names_declared(ds, scope, *base),
        ast::UnderlyingType::List { base, .. } => all_names_declared(ds, scope, *base),
        ast::UnderlyingType::Array { base, .. } => all_names_declared(ds, scope, *base),
        _ => true,
    }
}

/// Legalizer totality for type declarations: legalization succeeds exactly
/// when every name that the type mentions is declared, aggregates included;
/// where it fails, it names a name that is not declared.
pub proof fn lemma_legalize_total(ds: Seq<Declaration>, scope: Scope, u: ast::UnderlyingType, r: Result<UnderlyingType, SemanticError>)
    requires
        legalized(ds, scope, u, r),
    ensures
        all_names_declared(ds, scope, u) <==> r is Ok,
        r matches Err(SemanticError::UnresolvedName(m)) ==> lookup(ds, scope, m@) is None,
    decreases u,
{
    match u {
        ast::UnderlyingType::Select { types, .. } => {
            let names = string_views(types@);
            lemma_resolve_all_total(ds, scope, names);
            assert forall|k: int| 0 <= k < types@.len() implies names[k] == #[trigger] types@[k]@ by {}
            if resolve_all(ds, scope, names) is Err {
                let n = resolve_all(ds, scope, names)->Err_0;
                let k = choose|k: int| 0 <= k < names.len() && names[k] == n && #[trigger] lookup(ds, scope, names[k]) is None;
                assert(lookup(ds, scope, types@[k]@) is None);
            }
        },
        ast::UnderlyingType::SetOf { base, .. } => match r {
            Ok(UnderlyingType::SetOf { base: x, .. }) => lemma_legalize_total(ds, scope, *base, Ok(*x)),
            Ok(_) => {},
            Err(e) => lemma_legalize_total(ds, scope, *base, Err(e)),
        },
        ast::UnderlyingType::Bag { base, .. } => match r {
            Ok(UnderlyingType::Bag { base: x, .. }) => lemma_legalize_total(ds, scope, *base, Ok(*x)),
            Ok(_) => {},
            Err(e) => lemma_legalize_total(ds, scope, *base, Err(e)),
        },
        ast::UnderlyingType::List { base, .. } => match r {
            Ok(UnderlyingType::List { base: x, .. }) => lemma_legalize_total(ds, scope, *base, Ok(*x)),
            Ok(_) => {},
            Err(e) => lemma_legalize_total(ds, scope, *base, Err(e)),
        },
        ast::UnderlyingType::Array { base, .. } => match r {
            Ok(UnderlyingType::Array { base: x, .. }) => lemma_legalize_total(ds, scope, *base, Ok(*x)),
            Ok(_) => {},
            Err(e) => lemma_legalize_total(ds, scope, *base, Err(e)),
        },
        _ => {},
    }
}

} // verus!
