//! The `ap000` schema, its holders and its table:
//!
//! ```text
//! SCHEMA ap000;
//!   ENTITY a; x: REAL; y: REAL; END_ENTITY;
//!   ENTITY b; z: REAL; a: a; END_ENTITY;
//!   ENTITY c; p: a; q: b; END_ENTITY;
//!   ENTITY base SUPERTYPE OF (sub); a: REAL; END_ENTITY;
//!   ENTITY sub SUBTYPE OF (base); b: REAL; END_ENTITY;
//! END_SCHEMA;
//! ```
//!
//! A holder keeps a record's data as written, with references left as
//! placeholders; the table owns every holder of a data section, and
//! resolution builds owned values from holders without changing the table.
use crate::exchange::{DataSection, EntityInstance, Parameter, RValue, Real, Record};
use crate::lexical::chars_of;
use std::collections::HashMap;
use vstd::prelude::*;

verus! {

broadcast use vstd::std_specs::hash::group_hash_axioms;

/// The entity types of the schema.
#[derive(Debug, Clone, Copy, PartialEq, Eq)]
pub enum EntityType {
    A,
    B,
    C,
}

/// What a parameter was expected to be.
#[derive(Debug, Clone, Copy, PartialEq, Eq)]
pub enum Expected {
    Real,
    Entity(EntityType),
}

/// A construct that is recognised but not handled.
#[derive(Debug, Clone, Copy, PartialEq, Eq)]
pub enum Unsupported {
    ComplexInstance,
}

#[derive(Debug, Clone, PartialEq, Eq)]
pub enum Error {
    /// A reference to an id that the table does not hold under the expected type.
    UnknownEntity(u64),
    /// A record whose name is no entity of the schema.
    UnknownEntityType(String),
    /// A second instance with this id in one entity type.
    DuplicateId { id: u64, entity: EntityType },
    /// A record whose name is not that of the expected entity.
    RecordName { expected: EntityType },
    /// A record with another number of parameters than the entity has attributes.
    Arity { expected: usize, got: usize },
    /// `$` where the attribute is not optional.
    MissingValue { field: usize },
    /// A parameter of another kind than the attribute takes.
    TypeMismatch { field: usize, expected: Expected },
    Unimplemented(Unsupported),
}

/// A value written inline, or a reference to be resolved later.
#[derive(Debug, Clone, Copy, PartialEq, Eq)]
pub enum PlaceHolder<T> {
    Ref(RValue),
    Owned(T),
}

/// `ENTITY a`
#[derive(Debug, Clone, Copy, PartialEq, Eq)]
pub struct A {
    pub x: Real,
    pub y: Real,
}

/// Holder of `ENTITY a`
#[derive(Debug, Clone, Copy, PartialEq, Eq)]
pub struct AHolder {
    pub x: Real,
    pub y: Real,
}

/// `ENTITY b`
#[derive(Debug, Clone, Copy, PartialEq, Eq)]
pub struct B {
    pub z: Real,
    pub a: A,
}

/// Holder of `ENTITY b`
#[derive(Debug, Clone, Copy, PartialEq, Eq)]
pub struct BHolder {
    pub z: Real,
    pub a: PlaceHolder<AHolder>,
}

/// `ENTITY c`
#[derive(Debug, Clone, Copy, PartialEq, Eq)]
pub struct C {
    pub p: A,
    pub q: B,
}

/// Holder of `ENTITY c`
#[derive(Debug, Clone, Copy, PartialEq, Eq)]
pub struct CHolder {
    pub p: PlaceHolder<AHolder>,
    pub q: PlaceHolder<BHolder>,
}

// ---------------------------------------------------------------------------
// Deserialization

/// `c` is the letter `u` in either case.
pub open spec fn same_letter(c: char, u: char) -> bool {
    c == u || ('A' <= u && u <= 'Z' && c as u32 == u as u32 + 32)
}

/// The record name `name` is the one-letter entity name `u`, in either case.
pub open spec fn names_entity(name: Seq<char>, u: char) -> bool {
    name.len() == 1 && same_letter(name[0], u)
}

pub open spec fn letter_of(t: EntityType) -> char {
    match t {
        EntityType::A => 'A',
        EntityType::B => 'B',
        EntityType::C => 'C',
    }
}

pub open spec fn real_arg(p: Parameter, field: usize) -> Result<Real, Error> {
    match p {
        Parameter::Real(r) => Ok(r),
        Parameter::NotProvided => Err(Error::MissingValue { field }),
        _ => Err(Error::TypeMismatch { field, expected: Expected::Real }),
    }
}

/// The name and parameters of the entity record that `p` is, for an inline
/// value `NAME((param, ..))`.
pub open spec fn inline_record(p: Parameter) -> Option<(Seq<char>, Seq<Parameter>)> {
    match p {
        Parameter::Typed { name, ty } => match *ty {
            Parameter::List(v) => Some((name@, v@)),
            _ => None,
        },
        _ => None,
    }
}

pub open spec fn record_head(t: EntityType, name: Seq<char>, args: Seq<Parameter>, arity: usize) -> Result<(), Error> {
    if !names_entity(name, letter_of(t)) {
        Err(Error::RecordName { expected: t })
    } else if args.len() != arity {
        Err(Error::Arity { expected: arity, got: args.len() as usize })
    } else {
        Ok(())
    }
}

/// The holder of `a` that a record with this name and parameters gives.
pub open spec fn a_holder_of(name: Seq<char>, args: Seq<Parameter>) -> Result<AHolder, Error> {
    match record_head(EntityType::A, name, args, 2) {
        Err(e) => Err(e),
        Ok(_) => match real_arg(args[0], 0) {
            Err(e) => Err(e),
            Ok(x) => match real_arg(args[1], 1) {
                Err(e) => Err(e),
                Ok(y) => Ok(AHolder { x, y }),
            },
        },
    }
}

/// The placeholder that parameter `p`, written for an `a`, gives.
pub open spec fn a_place_of(p: Parameter, field: usize) -> Result<PlaceHolder<AHolder>, Error> {
    match p {
        Parameter::Ref(rv) => Ok(PlaceHolder::Ref(rv)),
        Parameter::NotProvided => Err(Error::MissingValue { field }),
        _ => match inline_record(p) {
            Some((n, v)) => match a_holder_of(n, v) {
                Ok(h) => Ok(PlaceHolder::Owned(h)),
                Err(e) => Err(e),
            },
            None => Err(Error::TypeMismatch { field, expected: Expected::Entity(EntityType::A) }),
        },
    }
}

/// The holder of `b` that a record with this name and parameters gives.
pub open spec fn b_holder_of(name: Seq<char>, args: Seq<Parameter>) -> Result<BHolder, Error> {
    match record_head(EntityType::B, name, args, 2) {
        Err(e) => Err(e),
        Ok(_) => match real_arg(args[0], 0) {
            Err(e) => Err(e),
            Ok(z) => match a_place_of(args[1], 1) {
                Err(e) => Err(e),
                Ok(a) => Ok(BHolder { z, a }),
            },
        },
    }
}

/// The placeholder that parameter `p`, written for a `b`, gives.
pub open spec fn b_place_of(p: Parameter, field: usize) -> Result<PlaceHolder<BHolder>, Error> {
    match p {
        Parameter::Ref(rv) => Ok(PlaceHolder::Ref(rv)),
        Parameter::NotProvided => Err(Error::MissingValue { field }),
        _ => match inline_record(p) {
            Some((n, v)) => match b_holder_of(n, v) {
                Ok(h) => Ok(PlaceHolder::Owned(h)),
                Err(e) => Err(e),
            },
            None => Err(Error::TypeMismatch { field, expected: Expected::Entity(EntityType::B) }),
        },
    }
}

/// The holder of `c` that a record with this name and parameters gives.
pub open spec fn c_holder_of(name: Seq<char>, args: Seq<Parameter>) -> Result<CHolder, Error> {
    match record_head(EntityType::C, name, args, 2) {
        Err(e) => Err(e),
        Ok(_) => match a_place_of(args[0], 0) {
            Err(e) => Err(e),
            Ok(p) => match b_place_of(args[1], 1) {
                Err(e) => Err(e),
                Ok(q) => Ok(CHolder { p, q }),
            },
        },
    }
}

fn names_entity_exec(name: &String, u: char) -> (r: bool)
    requires
        'A' <= u <= 'Z',
    ensures
        r == names_entity(name@, u),
{
    let cs = chars_of(name.as_str());
    cs.len() == 1 && (cs[0] == u || cs[0] as u32 == u as u32 + 32)
}

fn check_head(t: EntityType, name: &String, args: &Vec<Parameter>, arity: usize) -> (r: Result<(), Error>)
    ensures
        r == record_head(t, name@, args@, arity),
{
    let u = match t {
        EntityType::A => 'A',
        EntityType::B => 'B',
        EntityType::C => 'C',
    };
    if !names_entity_exec(name, u) {
        Err(Error::RecordName { expected: t })
    } else if args.len() != arity {
        Err(Error::Arity { expected: arity, got: args.len() })
    } else {
        Ok(())
    }
}

fn real_param(p: &Parameter, field: usize) -> (r: Result<Real, Error>)
    ensures
        r == real_arg(*p, field),
{
    match p {
        Parameter::Real(r) => Ok(*r),
        Parameter::NotProvided => Err(Error::MissingValue { field }),
        _ => Err(Error::TypeMismatch { field, expected: Expected::Real }),
    }
}

fn inline_record_exec(p: &Parameter) -> (r: Option<(&String, &Vec<Parameter>)>)
    ensures
        match inline_record(*p) {
            Some((n, v)) => r matches Some((rn, rv)) && rn@ == n && rv@ == v,
            None => r is None,
        },
{
    match p {
        Parameter::Typed { name, ty } => match &**ty {
            Parameter::List(v) => Some((name, v)),
            _ => None,
        },
        _ => None,
    }
}

impl AHolder {
    /// Reads an `a` from its record: name `A`, two reals.
    pub fn deserialize(record: &Record) -> (r: Result<AHolder, Error>)
        ensures
            r == a_holder_of(record.name@, record.parameters@),
    {
        AHolder::from_parts(&record.name, &record.parameters)
    }

    fn from_parts(name: &String, args: &Vec<Parameter>) -> (r: Result<AHolder, Error>)
        ensures
            r == a_holder_of(name@, args@),
    {
        check_head(EntityType::A, name, args, 2)?;
        let x = real_param(&args[0], 0)?;
        let y = real_param(&args[1], 1)?;
        Ok(AHolder { x, y })
    }
}

fn a_place(p: &Parameter, field: usize) -> (r: Result<PlaceHolder<AHolder>, Error>)
    ensures
        r == a_place_of(*p, field),
{
    match p {
        Parameter::Ref(rv) => Ok(PlaceHolder::Ref(*rv)),
        Parameter::NotProvided => Err(Error::MissingValue { field }),
        _ => match inline_record_exec(p) {
            Some((n, v)) => match AHolder::from_parts(n, v) {
                Ok(h) => Ok(PlaceHolder::Owned(h)),
                Err(e) => Err(e),
            },
            None => Err(Error::TypeMismatch { field, expected: Expected::Entity(EntityType::A) }),
        },
    }
}

impl BHolder {
    /// Reads a `b` from its record: name `B`, a real and an `a`.
    pub fn deserialize(record: &Record) -> (r: Result<BHolder, Error>)
        ensures
            r == b_holder_of(record.name@, record.parameters@),
    {
        BHolder::from_parts(&record.name, &record.parameters)
    }

    fn from_parts(name: &String, args: &Vec<Parameter>) -> (r: Result<BHolder, Error>)
        ensures
            r == b_holder_of(name@, args@),
    {
        check_head(EntityType::B, name, args, 2)?;
        let z = real_param(&args[0], 0)?;
        let a = a_place(&args[1], 1)?;
        Ok(BHolder { z, a })
    }
}

fn b_place(p: &Parameter, field: usize) -> (r: Result<PlaceHolder<BHolder>, Error>)
    ensures
        r == b_place_of(*p, field),
{
    match p {
        Parameter::Ref(rv) => Ok(PlaceHolder::Ref(*rv)),
        Parameter::NotProvided => Err(Error::MissingValue { field }),
        _ => match inline_record_exec(p) {
            Some((n, v)) => match BHolder::from_parts(n, v) {
                Ok(h) => Ok(PlaceHolder::Owned(h)),
                Err(e) => Err(e),
            },
            None => Err(Error::TypeMismatch { field, expected: Expected::Entity(EntityType::B) }),
        },
    }
}

impl CHolder {
    /// Reads a `c` from its record: name `C`, an `a` and a `b`.
    pub fn deserialize(record: &Record) -> (r: Result<CHolder, Error>)
        ensures
            r == c_holder_of(record.name@, record.parameters@),
    {
        CHolder::from_parts(&record.name, &record.parameters)
    }

    fn from_parts(name: &String, args: &Vec<Parameter>) -> (r: Result<CHolder, Error>)
        ensures
            r == c_holder_of(name@, args@),
    {
        check_head(EntityType::C, name, args, 2)?;
        let p = a_place(&args[0], 0)?;
        let q = b_place(&args[1], 1)?;
        Ok(CHolder { p, q })
    }
}

/// Deserialization is a function of the record: two records with the same
/// name and parameters give the same holder, or the same error.
pub proof fn lemma_deserialize_deterministic(r1: Record, r2: Record)
    requires
        r1.name@ == r2.name@,
        r1.parameters@ == r2.parameters@,
    ensures
        a_holder_of(r1.name@, r1.parameters@) == a_holder_of(r2.name@, r2.parameters@),
        b_holder_of(r1.name@, r1.parameters@) == b_holder_of(r2.name@, r2.parameters@),
        c_holder_of(r1.name@, r1.parameters@) == c_holder_of(r2.name@, r2.parameters@),
{
}

// ---------------------------------------------------------------------------
// Table

/// Holders of one data section, one map from instance id to holder per
/// entity type. Each map keeps the ids in the order of insertion.
#[derive(Debug, PartialEq)]
pub struct Ap000 {
    a: HashMap<u64, AHolder>,
    a_ids: Vec<u64>,
    b: HashMap<u64, BHolder>,
    b_ids: Vec<u64>,
    c: HashMap<u64, CHolder>,
    c_ids: Vec<u64>,
}

/// The holders of a table, by entity type.
pub type TableView = (Map<u64, AHolder>, Map<u64, BHolder>, Map<u64, CHolder>);

pub open spec fn lists_keys<V>(ids: Seq<u64>, m: Map<u64, V>) -> bool {
    ids.no_duplicates() && ids.to_set() == m.dom()
}

impl Ap000 {
    pub closed spec fn a_map(&self) -> Map<u64, AHolder> {
        self.a@
    }

    pub closed spec fn b_map(&self) -> Map<u64, BHolder> {
        self.b@
    }

    pub closed spec fn c_map(&self) -> Map<u64, CHolder> {
        self.c@
    }

    /// The ids of the `a` holders, in the order in which they were inserted.
    pub closed spec fn a_order(&self) -> Seq<u64> {
        self.a_ids@
    }

    pub closed spec fn b_order(&self) -> Seq<u64> {
        self.b_ids@
    }

    pub closed spec fn c_order(&self) -> Seq<u64> {
        self.c_ids@
    }

    pub open spec fn view_maps(&self) -> TableView {
        (self.a_map(), self.b_map(), self.c_map())
    }

    #[verifier::type_invariant]
    spec fn inv(&self) -> bool {
        self.wf()
    }

    /// Each order lists the ids of its map once each.
    pub open spec fn wf(&self) -> bool {
        &&& lists_keys(self.a_order(), self.a_map())
        &&& lists_keys(self.b_order(), self.b_map())
        &&& lists_keys(self.c_order(), self.c_map())
    }

    /// An empty table.
    pub fn new() -> (r: Ap000)
        ensures
            r.a_map() == Map::<u64, AHolder>::empty(),
            r.b_map() == Map::<u64, BHolder>::empty(),
            r.c_map() == Map::<u64, CHolder>::empty(),
    {
        let a: HashMap<u64, AHolder> = HashMap::new();
        let a_ids: Vec<u64> = Vec::new();
        let b: HashMap<u64, BHolder> = HashMap::new();
        let b_ids: Vec<u64> = Vec::new();
        let c: HashMap<u64, CHolder> = HashMap::new();
        let c_ids: Vec<u64> = Vec::new();
        assert(a_ids@.to_set() =~= a@.dom());
        assert(b_ids@.to_set() =~= b@.dom());
        assert(c_ids@.to_set() =~= c@.dom());
        Ap000 { a, a_ids, b, b_ids, c, c_ids }
    }

    /// Stores the holder of `a` instance `id`; fails with `DuplicateId` where
    /// the table holds that id for `a` already.
    pub fn insert_a(&mut self, id: u64, h: AHolder) -> (r: Result<(), Error>)
        ensures
            old(self).a_map().contains_key(id) ==> r == Err::<(), Error>(Error::DuplicateId { id, entity: EntityType::A })
                && *final(self) == *old(self),
            !old(self).a_map().contains_key(id) ==> r is Ok
                && final(self).a_map() == old(self).a_map().insert(id, h)
                && final(self).a_order() == old(self).a_order().push(id)
                && final(self).b_map() == old(self).b_map() && final(self).c_map() == old(self).c_map()
                && final(self).b_order() == old(self).b_order() && final(self).c_order() == old(self).c_order(),
    {
        proof {
            use_type_invariant(&*self);
        }
        if self.a.contains_key(&id) {
            return Err(Error::DuplicateId { id, entity: EntityType::A });
        }
        let mut table = Ap000::new();
        std::mem::swap(&mut table, self);
        proof {
            use_type_invariant(&table);
            lemma_push_lists_keys(table.a_ids@, table.a@, id, h);
        }
        let Ap000 { mut a, mut a_ids, mut b, mut b_ids, mut c, mut c_ids } = table;
        a.insert(id, h);
        a_ids.push(id);
        *self = Ap000 { a, a_ids, b, b_ids, c, c_ids };
        Ok(())
    }

    /// Stores the holder of `b` instance `id`; fails with `DuplicateId` where
    /// the table holds that id for `b` already.
    pub fn insert_b(&mut self, id: u64, h: BHolder) -> (r: Result<(), Error>)
        ensures
            old(self).b_map().contains_key(id) ==> r == Err::<(), Error>(Error::DuplicateId { id, entity: EntityType::B })
                && *final(self) == *old(self),
            !old(self).b_map().contains_key(id) ==> r is Ok
                && final(self).b_map() == old(self).b_map().insert(id, h)
                && final(self).b_order() == old(self).b_order().push(id)
                && final(self).a_map() == old(self).a_map() && final(self).c_map() == old(self).c_map()
                && final(self).a_order() == old(self).a_order() && final(self).c_order() == old(self).c_order(),
    {
        proof {
            use_type_invariant(&*self);
        }
        if self.b.contains_key(&id) {
            return Err(Error::DuplicateId { id, entity: EntityType::B });
        }
        let mut table = Ap000::new();
        std::mem::swap(&mut table, self);
        proof {
            use_type_invariant(&table);
            lemma_push_lists_keys(table.b_ids@, table.b@, id, h);
        }
        let Ap000 { mut a, mut a_ids, mut b, mut b_ids, mut c, mut c_ids } = table;
        b.insert(id, h);
        b_ids.push(id);
        *self = Ap000 { a, a_ids, b, b_ids, c, c_ids };
        Ok(())
    }

    /// Stores the holder of `c` instance `id`; fails with `DuplicateId` where
    /// the table holds that id for `c` already.
    pub fn insert_c(&mut self, id: u64, h: CHolder) -> (r: Result<(), Error>)
        ensures
            old(self).c_map().contains_key(id) ==> r == Err::<(), Error>(Error::DuplicateId { id, entity: EntityType::C })
                && *final(self) == *old(self),
            !old(self).c_map().contains_key(id) ==> r is Ok
                && final(self).c_map() == old(self).c_map().insert(id, h)
                && final(self).c_order() == old(self).c_order().push(id)
                && final(self).a_map() == old(self).a_map() && final(self).b_map() == old(self).b_map()
                && final(self).a_order() == old(self).a_order() && final(self).b_order() == old(self).b_order(),
    {
        proof {
            use_type_invariant(&*self);
        }
        if self.c.contains_key(&id) {
            return Err(Error::DuplicateId { id, entity: EntityType::C });
        }
        let mut table = Ap000::new();
        std::mem::swap(&mut table, self);
        proof {
            use_type_invariant(&table);
            lemma_push_lists_keys(table.c_ids@, table.c@, id, h);
        }
        let Ap000 { mut a, mut a_ids, mut b, mut b_ids, mut c, mut c_ids } = table;
        c.insert(id, h);
        c_ids.push(id);
        *self = Ap000 { a, a_ids, b, b_ids, c, c_ids };
        Ok(())
    }

    /// The holder of `a` instance `id`; fails with `UnknownEntity(id)` where
    /// the table holds none.
    pub fn get_a(&self, id: u64) -> (r: Result<AHolder, Error>)
        ensures
            self.a_map().contains_key(id) ==> r == Ok::<AHolder, Error>(self.a_map()[id]),
            !self.a_map().contains_key(id) ==> r == Err::<AHolder, Error>(Error::UnknownEntity(id)),
    {
        match self.a.get(&id) {
            Some(h) => Ok(*h),
            None => Err(Error::UnknownEntity(id)),
        }
    }

    /// The holder of `b` instance `id`; fails with `UnknownEntity(id)` where
    /// the table holds none.
    pub fn get_b(&self, id: u64) -> (r: Result<BHolder, Error>)
        ensures
            self.b_map().contains_key(id) ==> r == Ok::<BHolder, Error>(self.b_map()[id]),
            !self.b_map().contains_key(id) ==> r == Err::<BHolder, Error>(Error::UnknownEntity(id)),
    {
        match self.b.get(&id) {
            Some(h) => Ok(*h),
            None => Err(Error::UnknownEntity(id)),
        }
    }

    /// The holder of `c` instance `id`; fails with `UnknownEntity(id)` where
    /// the table holds none.
    pub fn get_c(&self, id: u64) -> (r: Result<CHolder, Error>)
        ensures
            self.c_map().contains_key(id) ==> r == Ok::<CHolder, Error>(self.c_map()[id]),
            !self.c_map().contains_key(id) ==> r == Err::<CHolder, Error>(Error::UnknownEntity(id)),
    {
        match self.c.get(&id) {
            Some(h) => Ok(*h),
            None => Err(Error::UnknownEntity(id)),
        }
    }
}

proof fn lemma_push_lists_keys<V>(ids: Seq<u64>, m: Map<u64, V>, id: u64, v: V)
    requires
        lists_keys(ids, m),
        !m.contains_key(id),
    ensures
        lists_keys(ids.push(id), m.insert(id, v)),
{
    assert(!ids.contains(id)) by {
        if ids.contains(id) {
            assert(ids.to_set().contains(id));
        }
    }
    assert(ids.push(id).to_set() =~= m.insert(id, v).dom()) by {
        assert forall|k: u64| ids.push(id).to_set().contains(k) <==> m.insert(id, v).dom().contains(k) by {
            if ids.push(id).contains(k) && k != id {
                let i = choose|i: int| 0 <= i < ids.push(id).len() && ids.push(id)[i] == k;
                assert(ids[i] == k);
                assert(ids.to_set().contains(k));
            }
            if m.dom().contains(k) {
                assert(ids.to_set().contains(k));
                let i = choose|i: int| 0 <= i < ids.len() && ids[i] == k;
                assert(ids.push(id)[i] == k);
            }
            if k == id {
                assert(ids.push(id)[ids.len() as int] == k);
            }
        }
    }
}

// ---------------------------------------------------------------------------
// Resolution

pub open spec fn rvalue_id(rv: RValue) -> u64 {
    match rv {
        RValue::Entity(n) => n,
        RValue::Value(n) => n,
    }
}

pub open spec fn a_owned(h: AHolder) -> A {
    A { x: h.x, y: h.y }
}

/// The `a` that a placeholder stands for in table `t`.
pub open spec fn resolve_a_place(t: Ap000, p: PlaceHolder<AHolder>) -> Result<A, Error> {
    match p {
        PlaceHolder::Owned(h) => Ok(a_owned(h)),
        PlaceHolder::Ref(rv) => if t.a_map().contains_key(rvalue_id(rv)) {
            Ok(a_owned(t.a_map()[rvalue_id(rv)]))
        } else {
            Err(Error::UnknownEntity(rvalue_id(rv)))
        },
    }
}

/// The `b` that a holder stands for in table `t`.
pub open spec fn resolve_b(t: Ap000, h: BHolder) -> Result<B, Error> {
    match resolve_a_place(t, h.a) {
        Ok(a) => Ok(B { z: h.z, a }),
        Err(e) => Err(e),
    }
}

/// The `b` that a placeholder stands for in table `t`.
pub open spec fn resolve_b_place(t: Ap000, p: PlaceHolder<BHolder>) -> Result<B, Error> {
    match p {
        PlaceHolder::Owned(h) => resolve_b(t, h),
        PlaceHolder::Ref(rv) => if t.b_map().contains_key(rvalue_id(rv)) {
            resolve_b(t, t.b_map()[rvalue_id(rv)])
        } else {
            Err(Error::UnknownEntity(rvalue_id(rv)))
        },
    }
}

/// The `c` that a holder stands for in table `t`.
pub open spec fn resolve_c(t: Ap000, h: CHolder) -> Result<C, Error> {
    match resolve_a_place(t, h.p) {
        Err(e) => Err(e),
        Ok(p) => match resolve_b_place(t, h.q) {
            Err(e) => Err(e),
            Ok(q) => Ok(C { p, q }),
        },
    }
}

fn rvalue_id_exec(rv: RValue) -> (r: u64)
    ensures
        r == rvalue_id(rv),
{
    match rv {
        RValue::Entity(n) => n,
        RValue::Value(n) => n,
    }
}

impl AHolder {
    /// The owned `a`: its fields as held.
    pub fn into_owned(self, tables: &Ap000) -> (r: Result<A, Error>)
        ensures
            r == Ok::<A, Error>(a_owned(self)),
    {
        Ok(A { x: self.x, y: self.y })
    }
}

impl BHolder {
    /// The owned `b`, its `a` resolved in `tables`.
    pub fn into_owned(self, tables: &Ap000) -> (r: Result<B, Error>)
        ensures
            r == resolve_b(*tables, self),
    {
        let a = resolve_a_placeholder(self.a, tables)?;
        Ok(B { z: self.z, a })
    }
}

impl CHolder {
    /// The owned `c`, its `a` and its `b` resolved in `tables`.
    pub fn into_owned(self, tables: &Ap000) -> (r: Result<C, Error>)
        ensures
            r == resolve_c(*tables, self),
    {
        let p = resolve_a_placeholder(self.p, tables)?;
        let q = resolve_b_placeholder(self.q, tables)?;
        Ok(C { p, q })
    }
}

/// The `a` that `p` stands for: the inline value, or the holder of the
/// referenced id in the `a` map of `tables`.
pub fn resolve_a_placeholder(p: PlaceHolder<AHolder>, tables: &Ap000) -> (r: Result<A, Error>)
    ensures
        r == resolve_a_place(*tables, p),
{
    match p {
        PlaceHolder::Owned(h) => h.into_owned(tables),
        PlaceHolder::Ref(rv) => {
            let h = tables.get_a(rvalue_id_exec(rv))?;
            h.into_owned(tables)
        },
    }
}

/// The `b` that `p` stands for: the inline value, or the holder of the
/// referenced id in the `b` map of `tables`, each resolved in turn.
pub fn resolve_b_placeholder(p: PlaceHolder<BHolder>, tables: &Ap000) -> (r: Result<B, Error>)
    ensures
        r == resolve_b_place(*tables, p),
{
    match p {
        PlaceHolder::Owned(h) => h.into_owned(tables),
        PlaceHolder::Ref(rv) => {
            let h = tables.get_b(rvalue_id_exec(rv))?;
            h.into_owned(tables)
        },
    }
}

impl Ap000 {
    /// Every `a` of the table, resolved, in the order of `a_order`.
    pub fn a_iter(&self) -> (r: Vec<Result<A, Error>>)
        ensures
            r@.len() == self.a_order().len(),
            forall|i: int| 0 <= i < r@.len() ==> #[trigger] r@[i] == Ok::<A, Error>(
                a_owned(self.a_map()[self.a_order()[i]]),
            ),
    {
        let mut out: Vec<Result<A, Error>> = Vec::new();
        let mut k: usize = 0;
        proof {
            use_type_invariant(self);
        }
        while k < self.a_ids.len()
            invariant
                self.wf(),
                k <= self.a_ids@.len(),
                out@.len() == k,
                forall|i: int| 0 <= i < k ==> #[trigger] out@[i] == Ok::<A, Error>(
                    a_owned(self.a_map()[self.a_order()[i]]),
                ),
            decreases self.a_ids@.len() - k,
        {
            proof {
                assert(self.a_ids@.to_set().contains(self.a_ids@[k as int]));
            }
            let h = self.get_a(self.a_ids[k]);
            let v = match h {
                Ok(h) => h.into_owned(self),
                Err(e) => Err(e),
            };
            out.push(v);
            k += 1;
        }
        out
    }

    /// Every `b` of the table, resolved, in the order of `b_order`; a
    /// dangling reference gives an error for that `b` alone.
    pub fn b_iter(&self) -> (r: Vec<Result<B, Error>>)
        ensures
            r@.len() == self.b_order().len(),
            forall|i: int| 0 <= i < r@.len() ==> #[trigger] r@[i] == resolve_b(*self, self.b_map()[self.b_order()[i]]),
    {
        let mut out: Vec<Result<B, Error>> = Vec::new();
        let mut k: usize = 0;
        proof {
            use_type_invariant(self);
        }
        while k < self.b_ids.len()
            invariant
                self.wf(),
                k <= self.b_ids@.len(),
                out@.len() == k,
                forall|i: int| 0 <= i < k ==> #[trigger] out@[i] == resolve_b(*self, self.b_map()[self.b_order()[i]]),
            decreases self.b_ids@.len() - k,
        {
            proof {
                assert(self.b_ids@.to_set().contains(self.b_ids@[k as int]));
            }
            let h = self.get_b(self.b_ids[k]);
            let v = match h {
                Ok(h) => h.into_owned(self),
                Err(e) => Err(e),
            };
            out.push(v);
            k += 1;
        }
        out
    }

    /// Every `c` of the table, resolved, in the order of `c_order`; a
    /// dangling reference gives an error for that `c` alone.
    pub fn c_iter(&self) -> (r: Vec<Result<C, Error>>)
        ensures
            r@.len() == self.c_order().len(),
            forall|i: int| 0 <= i < r@.len() ==> #[trigger] r@[i] == resolve_c(*self, self.c_map()[self.c_order()[i]]),
    {
        let mut out: Vec<Result<C, Error>> = Vec::new();
        let mut k: usize = 0;
        proof {
            use_type_invariant(self);
        }
        while k < self.c_ids.len()
            invariant
                self.wf(),
                k <= self.c_ids@.len(),
                out@.len() == k,
                forall|i: int| 0 <= i < k ==> #[trigger] out@[i] == resolve_c(*self, self.c_map()[self.c_order()[i]]),
            decreases self.c_ids@.len() - k,
        {
            proof {
                assert(self.c_ids@.to_set().contains(self.c_ids@[k as int]));
            }
            let h = self.get_c(self.c_ids[k]);
            let v = match h {
                Ok(h) => h.into_owned(self),
                Err(e) => Err(e),
            };
            out.push(v);
            k += 1;
        }
        out
    }
}

// ---------------------------------------------------------------------------
// Loading a data section

/// The table after instance `inst` is loaded into the table `m`.
pub open spec fn load_step(m: TableView, inst: EntityInstance) -> Result<TableView, Error> {
    match inst {
        EntityInstance::Complex { .. } => Err(Error::Unimplemented(Unsupported::ComplexInstance)),
        EntityInstance::Simple { name, record } => {
            let (n, args) = (record.name@, record.parameters@);
            if names_entity(n, 'A') {
                match a_holder_of(n, args) {
                    Err(e) => Err(e),
                    Ok(h) => if m.0.contains_key(name) {
                        Err(Error::DuplicateId { id: name, entity: EntityType::A })
                    } else {
                        Ok((m.0.insert(name, h), m.1, m.2))
                    },
                }
            } else if names_entity(n, 'B') {
                match b_holder_of(n, args) {
                    Err(e) => Err(e),
                    Ok(h) => if m.1.contains_key(name) {
                        Err(Error::DuplicateId { id: name, entity: EntityType::B })
                    } else {
                        Ok((m.0, m.1.insert(name, h), m.2))
                    },
                }
            } else if names_entity(n, 'C') {
                match c_holder_of(n, args) {
                    Err(e) => Err(e),
                    Ok(h) => if m.2.contains_key(name) {
                        Err(Error::DuplicateId { id: name, entity: EntityType::C })
                    } else {
                        Ok((m.0, m.1, m.2.insert(name, h)))
                    },
                }
            } else {
                Err(Error::UnknownEntityType(record.name))
            }
        },
    }
}

/// The table that the instances give, loaded in order, or the first error.
pub open spec fn load(insts: Seq<EntityInstance>) -> Result<TableView, Error>
    decreases insts.len(),
{
    if insts.len() == 0 {
        Ok((Map::empty(), Map::empty(), Map::empty()))
    } else {
        match load(insts.drop_last()) {
            Err(e) => Err(e),
            Ok(m) => load_step(m, insts.last()),
        }
    }
}

proof fn lemma_load_prefix_err(insts: Seq<EntityInstance>, k: int)
    requires
        0 <= k <= insts.len(),
        load(insts.take(k)) is Err,
    ensures
        load(insts) == load(insts.take(k)),
    decreases insts.len() - k,
{
    if k < insts.len() {
        assert(insts.drop_last().take(k) =~= insts.take(k));
        lemma_load_prefix_err(insts.drop_last(), k);
    } else {
        assert(insts.take(k) =~= insts);
    }
}

impl Ap000 {
    /// Loads every instance of a data section into a new table: each record
    /// goes to the map of the entity it names. Fails with the first error: an
    /// unknown entity name, a record that does not deserialize, an id used
    /// twice within one entity type, or a complex instance.
    pub fn from_section(sec: &DataSection) -> (r: Result<Ap000, Error>)
        ensures
            match load(sec.entities@) {
                Ok(m) => r matches Ok(t) && t.view_maps() == m,
                Err(e) => r == Err::<Ap000, Error>(e),
            },
    {
        let mut t = Ap000::new();
        let mut k: usize = 0;
        let ghost insts = sec.entities@;
        assert(insts.take(0) =~= seq![]);
        while k < sec.entities.len()
            invariant
                insts == sec.entities@,
                k <= insts.len(),
                load(insts.take(k as int)) == Ok::<TableView, Error>(t.view_maps()),
            decreases insts.len() - k,
        {
            assert(insts.take(k + 1).drop_last() =~= insts.take(k as int));
            if let Err(e) = t.load_instance(&sec.entities[k]) {
                proof {
                    lemma_load_prefix_err(insts, k + 1);
                }
                return Err(e);
            }
            k += 1;
        }
        assert(insts.take(k as int) =~= insts);
        Ok(t)
    }

    fn load_instance(&mut self, inst: &EntityInstance) -> (r: Result<(), Error>)
        ensures
            match load_step(old(self).view_maps(), *inst) {
                Ok(m) => r is Ok && final(self).view_maps() == m,
                Err(e) => r == Err::<(), Error>(e) && *final(self) == *old(self),
            },
    {
        match inst {
            EntityInstance::Complex { .. } => Err(Error::Unimplemented(Unsupported::ComplexInstance)),
            EntityInstance::Simple { name, record } => {
                if names_entity_exec(&record.name, 'A') {
                    let h = AHolder::deserialize(record)?;
                    self.insert_a(*name, h)
                } else if names_entity_exec(&record.name, 'B') {
                    let h = BHolder::deserialize(record)?;
                    self.insert_b(*name, h)
                } else if names_entity_exec(&record.name, 'C') {
                    let h = CHolder::deserialize(record)?;
                    self.insert_c(*name, h)
                } else {
                    Err(Error::UnknownEntityType(record.name.clone()))
                }
            },
        }
    }
}

/// The id of an instance.
pub open spec fn instance_id(inst: EntityInstance) -> u64 {
    match inst {
        EntityInstance::Simple { name, .. } => name,
        EntityInstance::Complex { name, .. } => name,
    }
}

/// The table that the instances give when each instance that fails is
/// left out, with the id and error of each such instance, in order.
pub open spec fn load_each(insts: Seq<EntityInstance>) -> (TableView, Seq<(u64, Error)>)
    decreases insts.len(),
{
    if insts.len() == 0 {
        ((Map::empty(), Map::empty(), Map::empty()), seq![])
    } else {
        let (m, errs) = load_each(insts.drop_last());
        match load_step(m, insts.last()) {
            Ok(m2) => (m2, errs),
            Err(e) => (m, errs.push((instance_id(insts.last()), e))),
        }
    }
}

impl Ap000 {
    /// Loads every instance of a data section that loads, so that one bad
    /// record does not keep the others out: returns the table and, for each
    /// instance that failed, its id and its error, in the order of the
    /// section.
    pub fn load_section(sec: &DataSection) -> (r: (Ap000, Vec<(u64, Error)>))
        ensures
            r.0.view_maps() == load_each(sec.entities@).0,
            r.1@ == load_each(sec.entities@).1,
    {
        let mut t = Ap000::new();
        let mut errors: Vec<(u64, Error)> = Vec::new();
        let mut k: usize = 0;
        let ghost insts = sec.entities@;
        assert(insts.take(0) =~= seq![]);
        while k < sec.entities.len()
            invariant
                insts == sec.entities@,
                k <= insts.len(),
                load_each(insts.take(k as int)) == (t.view_maps(), errors@),
            decreases insts.len() - k,
        {
            assert(insts.take(k + 1).drop_last() =~= insts.take(k as int));
            let inst = &sec.entities[k];
            if let Err(e) = t.load_instance(inst) {
                let id = match inst {
                    EntityInstance::Simple { name, .. } => *name,
                    EntityInstance::Complex { name, .. } => *name,
                };
                errors.push((id, e));
            }
            k += 1;
        }
        assert(insts.take(k as int) =~= insts);
        (t, errors)
    }
}

impl Default for Ap000 {
    fn default() -> (r: Ap000)
        ensures
            r.a_map() == Map::<u64, AHolder>::empty(),
            r.b_map() == Map::<u64, BHolder>::empty(),
            r.c_map() == Map::<u64, CHolder>::empty(),
    {
        Ap000::new()
    }
}

// ---------------------------------------------------------------------------
// Laws of resolution

/// The holder `h` holds every value inline, down to its leaves.
pub open spec fn b_reference_free(h: BHolder) -> bool {
    h.a is Owned
}

pub open spec fn c_reference_free(h: CHolder) -> bool {
    &&& h.p is Owned
    &&& h.q matches PlaceHolder::Owned(b) && b_reference_free(b)
}

/// The owned value that a reference-free holder's fields spell out.
pub open spec fn b_image(h: BHolder) -> B {
    B { z: h.z, a: a_owned(h.a->Owned_0) }
}

pub open spec fn c_image(h: CHolder) -> C {
    C { p: a_owned(h.p->Owned_0), q: b_image(h.q->Owned_0) }
}

/// Resolving a holder that holds no reference gives its own fields, in
/// any table.
pub proof fn lemma_reference_free_resolution(t: Ap000, a: AHolder, b: BHolder, c: CHolder)
    ensures
        resolve_a_place(t, PlaceHolder::Owned(a)) == Ok::<A, Error>(a_owned(a)),
        b_reference_free(b) ==> resolve_b(t, b) == Ok::<B, Error>(b_image(b)),
        c_reference_free(c) ==> resolve_c(t, c) == Ok::<C, Error>(c_image(c)),
{
}

/// A reference to an id that the table does not hold fails with
/// `UnknownEntity` of that id.
pub proof fn lemma_unknown_reference(t: Ap000, z: Real, p: PlaceHolder<AHolder>, id: u64)
    requires
        !t.a_map().contains_key(id),
        !t.b_map().contains_key(id),
    ensures
        resolve_b(t, BHolder { z, a: PlaceHolder::Ref(RValue::Entity(id)) }) == Err::<B, Error>(Error::UnknownEntity(id)),
        resolve_c(t, CHolder { p, q: PlaceHolder::Ref(RValue::Entity(id)) }) is Err,
        resolve_a_place(t, p) is Ok ==> resolve_c(t, CHolder { p, q: PlaceHolder::Ref(RValue::Entity(id)) })
            == Err::<C, Error>(Error::UnknownEntity(id)),
{
}

// ---------------------------------------------------------------------------
// Supertype and subtype

/// `ENTITY base SUPERTYPE OF (sub)`
#[derive(Debug, Clone, Copy, PartialEq, Eq)]
pub struct Base {
    pub a: Real,
}

/// `ENTITY sub SUBTYPE OF (base)`
#[derive(Debug, Clone, Copy, PartialEq, Eq)]
pub struct Sub {
    pub base: Base,
    pub b: Real,
}

/// The entities of the `base` family.
#[derive(Debug, Clone, Copy, PartialEq, Eq)]
pub enum BaseKind {
    Base,
    Sub,
}

/// A value of `base` or of one of its subtypes.
#[derive(Debug, Clone, Copy, PartialEq, Eq)]
pub enum BaseAny {
    Base(Base),
    Sub(Sub),
}

impl BaseAny {
    pub open spec fn kind(&self) -> BaseKind {
        match self {
            BaseAny::Base(_) => BaseKind::Base,
            BaseAny::Sub(_) => BaseKind::Sub,
        }
    }

    /// Whether the value is of entity `kind` itself.
    pub fn is(&self, kind: BaseKind) -> (r: bool)
        ensures
            r == (self.kind() == kind),
    {
        match (self, kind) {
            (BaseAny::Base(_), BaseKind::Base) => true,
            (BaseAny::Sub(_), BaseKind::Sub) => true,
            _ => false,
        }
    }

    /// The value as a `sub`, where it is one.
    pub fn downcast_ref(&self) -> (r: Option<&Sub>)
        ensures
            match self {
                BaseAny::Sub(s) => r == Some(s),
                BaseAny::Base(_) => r is None,
            },
    {
        match self {
            BaseAny::Sub(s) => Some(s),
            BaseAny::Base(_) => None,
        }
    }

    /// The value as a `sub` that may be changed in place, where it is one.
    pub fn downcast_mut(&mut self) -> (r: Option<&mut Sub>)
        ensures
            match *old(self) {
                BaseAny::Sub(s) => r matches Some(x) && *x == s && *final(self) == BaseAny::Sub(*final(x)),
                BaseAny::Base(_) => r is None && *final(self) == *old(self),
            },
    {
        match self {
            BaseAny::Sub(s) => Some(s),
            BaseAny::Base(_) => None,
        }
    }

    /// The `base` part of the value: the value itself, or the supertype
    /// part of a `sub`.
    pub fn as_base(&self) -> (r: &Base)
        ensures
            match self {
                BaseAny::Sub(s) => *r == s.base,
                BaseAny::Base(b) => *r == b,
            },
    {
        match self {
            BaseAny::Sub(s) => &s.base,
            BaseAny::Base(b) => b,
        }
    }
}

} // verus!
