use ruststep::ap000::{Ap000, A, B, C};
use ruststep::exchange::{EntityInstance, Parameter, RValue, Real};
use ruststep::parser::Production;
use ruststep::part21::{data_section, parameter, simple_record};

#[test]
fn scalar_parameters() {
    assert_eq!(parameter("$").unwrap(), (Parameter::NotProvided, 1));
    assert_eq!(parameter("*").unwrap(), (Parameter::Omitted, 1));
    assert_eq!(parameter("#12").unwrap(), (Parameter::Ref(RValue::Entity(12)), 3));
    assert_eq!(parameter("@7").unwrap(), (Parameter::Ref(RValue::Value(7)), 2));
    assert_eq!(parameter(".STEEL.").unwrap(), (Parameter::Enumeration("STEEL".to_string()), 7));
    assert_eq!(parameter("'it''s'").unwrap(), (Parameter::String("it's".to_string()), 7));
    assert_eq!(parameter("''").unwrap(), (Parameter::String(String::new()), 2));
    assert_eq!(parameter("\"0FF\"").unwrap(), (Parameter::Binary("0FF".to_string()), 5));
    assert!(parameter("\"0FF").is_err());
    assert_eq!(parameter("-42").unwrap(), (Parameter::Integer(-42), 3));
    assert_eq!(parameter("+7,").unwrap(), (Parameter::Integer(7), 2));
}

#[test]
fn real_parameters() {
    assert_eq!(parameter("1.0").unwrap(), (Parameter::Real(Real::new(10, -1)), 3));
    assert_eq!(parameter("-2.50").unwrap(), (Parameter::Real(Real::new(-250, -2)), 5));
    assert_eq!(parameter("3.").unwrap(), (Parameter::Real(Real::new(3, 0)), 2));
    assert_eq!(parameter("1.5E3").unwrap(), (Parameter::Real(Real::new(15, 2)), 5));
    assert_eq!(parameter("1.5e-3").unwrap(), (Parameter::Real(Real::new(15, -4)), 6));
    assert!(parameter("1.5E").is_err());
    assert!(parameter("99999999999999999999.0").is_err());
    assert!(parameter("99999999999999999999").is_err());
}

#[test]
fn nested_parameters() {
    let (p, n) = parameter("A((4.0, 5.0))").unwrap();
    assert_eq!(n, 13);
    assert_eq!(
        p,
        Parameter::Typed {
            name: "A".to_string(),
            ty: Box::new(Parameter::List(vec![
                Parameter::Real(Real::new(40, -1)),
                Parameter::Real(Real::new(50, -1)),
            ])),
        }
    );
    assert_eq!(parameter("( )").unwrap(), (Parameter::List(vec![]), 3));
    assert_eq!(
        parameter("(#1, ($, *))").unwrap().0,
        Parameter::List(vec![
            Parameter::Ref(RValue::Entity(1)),
            Parameter::List(vec![Parameter::NotProvided, Parameter::Omitted]),
        ])
    );
}

#[test]
fn malformed_parameters() {
    for text in ["", "(1,", "(1,)", "A(1", ".X", "'open", "#", "#x", "?"] {
        let e = parameter(text).unwrap_err();
        assert_eq!(e.production, Production::Parameter);
        assert_eq!(e.position, 0);
    }
}

#[test]
fn records() {
    let (rec, n) = simple_record("B(3.0, #1);").unwrap();
    assert_eq!(n, 10);
    assert_eq!(rec.name, "B");
    assert_eq!(rec.parameters, vec![Parameter::Real(Real::new(30, -1)), Parameter::Ref(RValue::Entity(1))]);
    assert_eq!(simple_record("(1.0)").unwrap_err().production, Production::SimpleRecord);
}

#[test]
fn data_sections() {
    let text = "DATA;\n  #1 = A(1.0, 2.0);\n  #2=B(3.0,#1);\nENDSEC;";
    let (sec, n) = data_section(text).unwrap();
    assert_eq!(n, text.len());
    assert_eq!(sec.entities.len(), 2);
    assert!(matches!(&sec.entities[1], EntityInstance::Simple { name: 2, record } if record.name == "B"));
    let (empty, _) = data_section("DATA; ENDSEC;").unwrap();
    assert!(empty.entities.is_empty());
    assert_eq!(data_section("DATA; #1 = A(1.0, 2.0) ENDSEC;").unwrap_err().production, Production::DataSection);
    assert!(data_section("DATA; #1 = A(1.0, 2.0);").is_err());
}

const STEP_INPUT: &str = r#"
ISO-10303-21;
HEADER;
  FILE_DESCRIPTION((''), '');
  FILE_NAME('ruststep/examples/ap000/read.step', '2018-04-27T08:23:47', (''), (''), '', '', '');
  FILE_SCHEMA(('AP000'));
ENDSEC;
DATA;
  #1 = A(1.0, 2.0);
  #2 = B(3.0, #1);
  #3 = B(3.0, A((4.0, 5.0)));
  #4 = C(#1, #2);
  #5 = C(#1, #3);
  #6 = C(#1, B((6.0, #1)));
  #7 = C(#1, B((6.0, A((7.0, 8.0)))));
  #8 = C(A((9.0, 10.0)), #2);
  #9 = C(A((11.0, 12.0)), #3);
ENDSEC;
END-ISO-10303-21;
"#;

#[test]
fn whole_exchange_structure() {

    let step = ruststep::part21::parse(STEP_INPUT.trim()).unwrap();
    assert_eq!(step.header.len(), 3);
    assert_eq!(step.header[2].name, "FILE_SCHEMA");
    assert_eq!(step.data.len(), 1);
    assert_eq!(step.data[0].entities.len(), 9);
    let table = Ap000::from_section(&step.data[0]).unwrap();
    let cs = table.c_iter();
    assert_eq!(cs.len(), 6);
    let a = |x: i64, y: i64| A { x: Real::new(x, -1), y: Real::new(y, -1) };
    assert!(cs.contains(&Ok(C { p: a(10, 20), q: B { z: Real::new(60, -1), a: a(70, 80) } })));
    assert!(cs.contains(&Ok(C { p: a(110, 120), q: B { z: Real::new(30, -1), a: a(40, 50) } })));
    assert!(cs.iter().all(|c| c.is_ok()));
}

#[test]
fn several_data_sections_keep_their_order() {
    let text = "ISO-10303-21; HEADER; ENDSEC; DATA; #1 = A(1.0, 2.0); ENDSEC; DATA; ENDSEC; END-ISO-10303-21;";
    let step = ruststep::part21::parse(text).unwrap();
    assert_eq!(step.data.len(), 2);
    assert_eq!(step.data[0].entities.len(), 1);
    assert!(step.data[1].entities.is_empty());
    assert_eq!(
        ruststep::part21::parse("ISO-10303-21; HEADER; ENDSEC; END-ISO-10303-21;").unwrap_err().production,
        Production::Exchange
    );
    assert!(ruststep::part21::parse("ISO-10303-21; HEADER; ENDSEC; DATA; ENDSEC; END-ISO-10303-21; x").is_err());
}
