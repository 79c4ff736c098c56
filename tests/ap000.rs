use ruststep::ap000::{
    resolve_a_placeholder, resolve_b_placeholder, AHolder, Ap000, BHolder, CHolder, EntityType,
    Error, Expected, PlaceHolder, Unsupported, A, B, C,
};
use ruststep::exchange::{DataSection, EntityInstance, Parameter, RValue, Real, Record};
use ruststep::part21::{data_section, simple_record};

fn dec(mantissa: i64) -> Real {
    Real::new(mantissa, -1)
}

fn r(mantissa: i64) -> Parameter {
    Parameter::Real(dec(mantissa))
}

fn record(name: &str, parameters: Vec<Parameter>) -> Record {
    Record { name: name.to_string(), parameters }
}

fn typed(name: &str, parameters: Vec<Parameter>) -> Parameter {
    Parameter::Typed { name: name.to_string(), ty: Box::new(Parameter::List(parameters)) }
}

fn reference(id: u64) -> Parameter {
    Parameter::Ref(RValue::Entity(id))
}

fn simple(id: u64, rec: Record) -> EntityInstance {
    EntityInstance::Simple { name: id, record: rec }
}

// #2 = A(1.0, 2.0); #4 = B(2.0, A((4.0, 5.0))); #5 = B(2.0, #2);
fn example_table() -> Ap000 {
    let mut tables = Ap000::default();
    tables.insert_a(2, AHolder { x: dec(10), y: dec(20) }).unwrap();
    tables
        .insert_b(4, BHolder { z: dec(20), a: PlaceHolder::Owned(AHolder { x: dec(40), y: dec(50) }) })
        .unwrap();
    tables.insert_b(5, BHolder { z: dec(20), a: PlaceHolder::Ref(RValue::Entity(2)) }).unwrap();
    tables
}

fn a(x: i64, y: i64) -> A {
    A { x: dec(x), y: dec(y) }
}

#[test]
fn a_from_record() {
    let (record, _) = simple_record("A(1.0, 2.0)").unwrap();
    let a = AHolder::deserialize(&record).unwrap();
    assert_eq!(a, AHolder { x: dec(10), y: dec(20) });
}

#[test]
fn section_to_table() {
    let (sec, _) = data_section(
        r#"
            DATA;
              #2 = A(1.0, 2.0);
              #4 = B(2.0, A((4.0, 5.0)));
              #5 = B(2.0, #2);
            ENDSEC;
            "#
        .trim(),
    )
    .unwrap();

    let table = Ap000::from_section(&sec).unwrap();
    assert_eq!(table, example_table());
}

#[test]
fn b_from_record() {
    let tables = example_table();

    let (record, _) = simple_record("B(1.0, A((2.0, 3.0)))").unwrap();
    let b = BHolder::deserialize(&record).unwrap();
    assert_eq!(b.into_owned(&tables).unwrap(), B { z: dec(10), a: a(20, 30) });

    let (record, _) = simple_record("B(1.0, #2)").unwrap();
    let b = BHolder::deserialize(&record).unwrap();
    assert_eq!(b.into_owned(&tables).unwrap(), B { z: dec(10), a: a(10, 20) });
}

#[test]
fn c_from_record() {
    let tables = example_table();

    // All components are inline
    let (record, _) = simple_record("C(A((1.0, 2.0)), B((1.0, A((2.0, 3.0)))))").unwrap();
    let c = CHolder::deserialize(&record).unwrap();
    assert_eq!(c.into_owned(&tables).unwrap(), C { p: a(10, 20), q: B { z: dec(10), a: a(20, 30) } });

    // Use B with inline A
    let (record, _) = simple_record("C(A((1.0, 2.0)), #4)").unwrap();
    let c = CHolder::deserialize(&record).unwrap();
    assert_eq!(c.into_owned(&tables).unwrap(), C { p: a(10, 20), q: B { z: dec(20), a: a(40, 50) } });

    // Use B with ref A
    let (record, _) = simple_record("C(A((1.0, 2.0)), #5)").unwrap();
    let c = CHolder::deserialize(&record).unwrap();
    assert_eq!(c.into_owned(&tables).unwrap(), C { p: a(10, 20), q: B { z: dec(20), a: a(10, 20) } });

    // Use both reference
    let (record, _) = simple_record("C(#2, #4)").unwrap();
    let c = CHolder::deserialize(&record).unwrap();
    assert_eq!(c.into_owned(&tables).unwrap(), C { p: a(10, 20), q: B { z: dec(20), a: a(40, 50) } });

    // Use both reference with DAG
    let (record, _) = simple_record("C(#2, #5)").unwrap();
    let c = CHolder::deserialize(&record).unwrap();
    assert_eq!(c.into_owned(&tables).unwrap(), C { p: a(10, 20), q: B { z: dec(20), a: a(10, 20) } });

    // Inline struct with reference
    let (record, _) = simple_record("C(#2, B((6.0, #2)))").unwrap();
    let c = CHolder::deserialize(&record).unwrap();
    assert_eq!(c.into_owned(&tables).unwrap(), C { p: a(10, 20), q: B { z: dec(60), a: a(10, 20) } });
}

#[test]
fn inline_value_from_text() {
    let (sec, _) = data_section("DATA;\n  #3 = B(3.0, A((4.0, 5.0)));\nENDSEC;").unwrap();
    let table = Ap000::from_section(&sec).unwrap();
    assert_eq!(
        table.get_b(3).unwrap(),
        BHolder { z: dec(30), a: PlaceHolder::Owned(AHolder { x: dec(40), y: dec(50) }) }
    );
    assert_eq!(table.b_iter(), vec![Ok(B { z: dec(30), a: a(40, 50) })]);
}

#[test]
fn dag_resolution_from_text() {
    let (sec, _) = data_section("DATA; #1 = A(1.0,2.0); #2 = B(3.0,#1); #4 = C(#1,#2); ENDSEC;").unwrap();
    let table = Ap000::from_section(&sec).unwrap();
    assert_eq!(table.c_iter(), vec![Ok(C { p: a(10, 20), q: B { z: dec(30), a: a(10, 20) } })]);
}

#[test]
fn dangling_reference_from_text() {
    let (sec, _) = data_section("DATA; #2 = B(3.0, #99); ENDSEC;").unwrap();
    let table = Ap000::from_section(&sec).unwrap();
    assert_eq!(table.b_iter(), vec![Err(Error::UnknownEntity(99))]);
    let (sec, _) = data_section("DATA; #1 = B(1.0, #99); ENDSEC;").unwrap();
    let table = Ap000::from_section(&sec).unwrap();
    assert_eq!(table.b_iter(), vec![Err(Error::UnknownEntity(99))]);
}

#[test]
fn inline_value_is_owned() {
    let sec = DataSection { entities: vec![simple(3, record("B", vec![r(30), typed("A", vec![r(40), r(50)])]))] };
    let table = Ap000::from_section(&sec).unwrap();
    assert_eq!(
        table.get_b(3).unwrap(),
        BHolder { z: dec(30), a: PlaceHolder::Owned(AHolder { x: dec(40), y: dec(50) }) }
    );
    assert_eq!(table.b_iter(), vec![Ok(B { z: dec(30), a: a(40, 50) })]);
}

#[test]
fn dag_resolution_copies_shared_values() {
    let sec = DataSection {
        entities: vec![
            simple(1, record("A", vec![r(10), r(20)])),
            simple(2, record("B", vec![r(30), reference(1)])),
            simple(4, record("C", vec![reference(1), reference(2)])),
        ],
    };
    let table = Ap000::from_section(&sec).unwrap();
    let cs = table.c_iter();
    assert_eq!(cs, vec![Ok(C { p: a(10, 20), q: B { z: dec(30), a: a(10, 20) } })]);
    assert_eq!(table.a_iter(), vec![Ok(a(10, 20))]);
}

#[test]
fn dangling_reference_fails_alone() {
    let sec = DataSection {
        entities: vec![
            simple(1, record("B", vec![r(10), reference(99)])),
            simple(2, record("B", vec![r(30), typed("A", vec![r(10), r(20)])])),
        ],
    };
    let table = Ap000::from_section(&sec).unwrap();
    let bs = table.b_iter();
    assert_eq!(bs.len(), 2);
    assert!(bs.contains(&Err(Error::UnknownEntity(99))));
    assert!(bs.contains(&Ok(B { z: dec(30), a: a(10, 20) })));
}

#[test]
fn self_reference_does_not_resolve() {
    // `b` refers to an `a`, so `#1` is looked up among the `a` instances.
    let sec = DataSection { entities: vec![simple(1, record("B", vec![r(10), reference(1)]))] };
    let table = Ap000::from_section(&sec).unwrap();
    assert_eq!(table.b_iter(), vec![Err(Error::UnknownEntity(1))]);
}

#[test]
fn deserialization_is_deterministic() {
    let rec = record("C", vec![reference(2), typed("B", vec![r(60), reference(2)])]);
    assert_eq!(CHolder::deserialize(&rec), CHolder::deserialize(&rec));
}

#[test]
fn reference_free_holder_resolves_to_its_fields() {
    let empty = Ap000::new();
    let h = CHolder {
        p: PlaceHolder::Owned(AHolder { x: dec(1), y: dec(2) }),
        q: PlaceHolder::Owned(BHolder { z: dec(3), a: PlaceHolder::Owned(AHolder { x: dec(4), y: dec(5) }) }),
    };
    assert_eq!(h.into_owned(&empty), Ok(C { p: a(1, 2), q: B { z: dec(3), a: a(4, 5) } }));
}

#[test]
fn value_reference_resolves_like_instance_reference() {
    let tables = example_table();
    assert_eq!(resolve_a_placeholder(PlaceHolder::Ref(RValue::Value(2)), &tables), Ok(a(10, 20)));
    assert_eq!(
        resolve_b_placeholder(PlaceHolder::Ref(RValue::Value(5)), &tables),
        Ok(B { z: dec(20), a: a(10, 20) })
    );
    assert_eq!(resolve_b_placeholder(PlaceHolder::Ref(RValue::Value(2)), &tables), Err(Error::UnknownEntity(2)));
}

#[test]
fn lower_case_record_names_are_accepted() {
    let sec = DataSection { entities: vec![simple(7, record("a", vec![r(1), r(2)]))] };
    let table = Ap000::from_section(&sec).unwrap();
    assert_eq!(table.get_a(7), Ok(AHolder { x: dec(1), y: dec(2) }));
}

#[test]
fn loader_errors() {
    let dup = DataSection {
        entities: vec![simple(1, record("A", vec![r(1), r(2)])), simple(1, record("A", vec![r(3), r(4)]))],
    };
    assert_eq!(Ap000::from_section(&dup), Err(Error::DuplicateId { id: 1, entity: EntityType::A }));

    let same_id_other_type = DataSection {
        entities: vec![simple(1, record("A", vec![r(1), r(2)])), simple(1, record("B", vec![r(3), reference(1)]))],
    };
    assert!(Ap000::from_section(&same_id_other_type).is_ok());

    let unknown = DataSection { entities: vec![simple(1, record("D", vec![]))] };
    assert_eq!(Ap000::from_section(&unknown), Err(Error::UnknownEntityType("D".to_string())));

    let complex = DataSection { entities: vec![EntityInstance::Complex { name: 1, subsuper: vec![] }] };
    assert_eq!(Ap000::from_section(&complex), Err(Error::Unimplemented(Unsupported::ComplexInstance)));
}

#[test]
fn deserialize_errors() {
    assert_eq!(
        AHolder::deserialize(&record("B", vec![r(1), r(2)])),
        Err(Error::RecordName { expected: EntityType::A })
    );
    assert_eq!(AHolder::deserialize(&record("A", vec![r(1)])), Err(Error::Arity { expected: 2, got: 1 }));
    assert_eq!(
        AHolder::deserialize(&record("A", vec![r(1), Parameter::NotProvided])),
        Err(Error::MissingValue { field: 1 })
    );
    assert_eq!(
        AHolder::deserialize(&record("A", vec![Parameter::Integer(1), r(1)])),
        Err(Error::TypeMismatch { field: 0, expected: Expected::Real })
    );
    assert_eq!(
        BHolder::deserialize(&record("B", vec![r(1), r(1)])),
        Err(Error::TypeMismatch { field: 1, expected: Expected::Entity(EntityType::A) })
    );
    assert_eq!(
        CHolder::deserialize(&record("C", vec![reference(1), typed("A", vec![r(1), r(2)])])),
        Err(Error::RecordName { expected: EntityType::B })
    );
}

#[test]
fn table_lookup_and_duplicates() {
    let mut t = example_table();
    assert_eq!(t.get_a(3), Err(Error::UnknownEntity(3)));
    assert_eq!(t.get_c(1), Err(Error::UnknownEntity(1)));
    assert_eq!(
        t.insert_b(4, BHolder { z: dec(1), a: PlaceHolder::Ref(RValue::Entity(2)) }),
        Err(Error::DuplicateId { id: 4, entity: EntityType::B })
    );
    assert_eq!(t, example_table());
    t.insert_c(9, CHolder { p: PlaceHolder::Ref(RValue::Entity(2)), q: PlaceHolder::Ref(RValue::Entity(5)) }).unwrap();
    assert_eq!(t.c_iter(), vec![Ok(C { p: a(10, 20), q: B { z: dec(20), a: a(10, 20) } })]);
    assert_eq!(
        t.insert_c(9, CHolder { p: PlaceHolder::Ref(RValue::Entity(2)), q: PlaceHolder::Ref(RValue::Entity(5)) }),
        Err(Error::DuplicateId { id: 9, entity: EntityType::C })
    );
}

#[test]
fn bad_records_do_not_poison_the_table() {
    let (sec, _) = data_section(
        "DATA; #1 = A(1.0, 2.0); #2 = A(1.0); #3 = D(1.0); #4 = B(3.0, #1); #1 = A(5.0, 6.0); ENDSEC;",
    )
    .unwrap();
    assert!(Ap000::from_section(&sec).is_err());
    let (table, errors) = Ap000::load_section(&sec);
    assert_eq!(
        errors,
        vec![
            (2, Error::Arity { expected: 2, got: 1 }),
            (3, Error::UnknownEntityType("D".to_string())),
            (1, Error::DuplicateId { id: 1, entity: EntityType::A }),
        ]
    );
    assert_eq!(table.a_iter(), vec![Ok(a(10, 20))]);
    assert_eq!(table.b_iter(), vec![Ok(B { z: dec(30), a: a(10, 20) })]);
}
