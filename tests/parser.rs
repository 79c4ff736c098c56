use ruststep::ast::{Extensiblity, ParameterType, SimpleType, UnderlyingType, WidthSpec};
use ruststep::parser;
use ruststep::parser::{parse_schema, paramter_type, schema_body, schema_decl, Production};

#[test]
fn entity_head() {
    let input = "ENTITY homhom;";
    let (name, consumed) = parser::entity_head(input).unwrap();
    assert_eq!(name, "homhom");
    assert_eq!(&input[consumed..], "");
}

#[test]
fn explicit_attr() {
    let input = "x : REAL;";
    let ((id, ty, optional), consumed) = parser::explicit_attr(input).unwrap();
    assert!(!optional);
    assert_eq!(id, &["x"]);
    assert!(matches!(ty, ParameterType::Simple(SimpleType::Real)));
    assert_eq!(&input[consumed..], "");

    let input = "x, y : REAL;";
    let ((id, ty, optional), consumed) = parser::explicit_attr(input).unwrap();
    assert!(!optional);
    assert_eq!(id, &["x", "y"]);
    assert!(matches!(ty, ParameterType::Simple(SimpleType::Real)));
    assert_eq!(&input[consumed..], "");
}

#[test]
fn entity_decl() {
    let exp_str = r#"
        ENTITY first;
          m_ref : second;
          fattr : REAL;
        END_ENTITY;
        "#
    .trim();

    let (entity, consumed) = parser::entity_decl(exp_str).unwrap();
    assert_eq!(entity.name, "first");

    assert_eq!(entity.attributes.len(), 2);
    assert_eq!(entity.attributes[0].0, "m_ref");
    assert!(matches!(entity.attributes[0].1, ParameterType::Named(_)));
    assert_eq!(entity.attributes[1].0, "fattr");
    assert!(matches!(
        entity.attributes[1].1,
        ParameterType::Simple(SimpleType::Real)
    ));

    assert_eq!(&exp_str[consumed..], "");
}

#[test]
fn schema() {
    let exp_str = r#"
        SCHEMA my_first_schema;
          ENTITY first;
            m_ref : second;
            fattr : STRING;
          END_ENTITY;

          ENTITY second;
            sattr : STRING;
          END_ENTITY;
        END_SCHEMA;
        "#
    .trim();

    let (schema, consumed) = parser::schema(exp_str).unwrap();
    assert_eq!(schema.name, "my_first_schema");
    assert_eq!(schema.entities.len(), 2);
    assert_eq!(
        schema.entities[0],
        parser::entity_decl(
            r#"
                ENTITY first;
                  m_ref : second;
                  fattr : STRING;
                END_ENTITY;
                "#
            .trim()
        )
        .unwrap()
        .0
    );
    assert_eq!(
        schema.entities[1],
        parser::entity_decl(
            r#"
                ENTITY second;
                  sattr : STRING;
                END_ENTITY;
                "#
            .trim()
        )
        .unwrap()
        .0
    );
    assert_eq!(&exp_str[consumed..], "");
}

#[test]
fn minimal_schema_attribute_types() {
    let text = "SCHEMA my_first_schema; ENTITY first; m_ref : second; fattr : STRING; END_ENTITY; ENTITY second; sattr : STRING; END_ENTITY; END_SCHEMA;";
    let s = parse_schema(text).unwrap();
    assert_eq!(s.entities[0].name, "first");
    assert_eq!(s.entities[1].name, "second");
    assert_eq!(s.entities[0].attributes[0].1, ParameterType::Named("second".to_string()));
    assert_eq!(
        s.entities[0].attributes[1].1,
        ParameterType::Simple(SimpleType::String_ { width_spec: None })
    );
    assert_eq!(
        s.entities[1].attributes[0].1,
        ParameterType::Simple(SimpleType::String_ { width_spec: None })
    );
}

#[test]
fn three_names_share_one_type() {
    let (entity, _) = parser::entity_decl("ENTITY p; a, b, c : point; END_ENTITY;").unwrap();
    assert_eq!(entity.attributes.len(), 3);
    let names: Vec<&str> = entity.attributes.iter().map(|(n, _, _)| n.as_str()).collect();
    assert_eq!(names, vec!["a", "b", "c"]);
    for (_, ty, _) in &entity.attributes {
        assert_eq!(*ty, ParameterType::Named("point".to_string()));
    }
}

#[test]
fn simple_type_keywords() {
    let cases = [
        ("NUMBER", SimpleType::Number),
        ("REAL", SimpleType::Real),
        ("INTEGER", SimpleType::Integer),
        ("LOGICAL", SimpleType::Logical),
        ("BOOLEAN", SimpleType::Boolen),
        ("STRING", SimpleType::String_ { width_spec: None }),
        ("BINARY", SimpleType::Binary { width_spec: None }),
    ];
    for (text, st) in cases {
        let (ty, n) = paramter_type(text).unwrap();
        assert_eq!(ty, ParameterType::Simple(st));
        assert_eq!(n, text.len());
    }
    let (ty, n) = paramter_type("REALITY;").unwrap();
    assert_eq!(ty, ParameterType::Named("REALITY".to_string()));
    assert_eq!(n, 7);
}

#[test]
fn remarks_are_skipped() {
    let text = "SCHEMA s; (* a block\n remark *) ENTITY e; -- a tail remark\n x : INTEGER; END_ENTITY; END_SCHEMA; -- done";
    let s = parse_schema(text).unwrap();
    assert_eq!(s.name, "s");
    assert_eq!(s.entities.len(), 1);
    assert_eq!(s.entities[0].attributes[0].0, "x");
}

#[test]
fn unclosed_remark_is_rejected() {
    let text = "SCHEMA s; (* never closed END_SCHEMA;";
    let e = parse_schema(text).unwrap_err();
    assert_eq!(e.production, Production::Schema);
    assert_eq!(e.position, 0);
}

#[test]
fn trailing_text_is_rejected() {
    let text = "SCHEMA s; END_SCHEMA; extra";
    let e = parse_schema(text).unwrap_err();
    assert_eq!(e.production, Production::Schema);
    assert_eq!(e.position, 21);
    assert_eq!(parser::schema(text).unwrap_err().position, 21);
    assert_eq!(parser::schema("SCHEMA s; END_SCHEMA; -- end\n").unwrap().1, 21);
}

#[test]
fn malformed_productions_fail() {
    assert_eq!(parser::entity_head("ENTITYx;").unwrap_err().production, Production::EntityHead);
    assert_eq!(parser::entity_head("ENTITY x").unwrap_err().production, Production::EntityHead);
    assert_eq!(parser::explicit_attr("x : ;").unwrap_err().production, Production::ExplicitAttr);
    assert_eq!(parser::explicit_attr("x, : REAL;").unwrap_err().production, Production::ExplicitAttr);
    assert_eq!(parser::entity_decl("ENTITY e; x : REAL;").unwrap_err().production, Production::EntityDecl);
    assert_eq!(schema_decl("SCHEMA;").unwrap_err().production, Production::SchemaDecl);
    assert_eq!(paramter_type("1x").unwrap_err().production, Production::ParameterType);
}

#[test]
fn schema_decl_and_body() {
    let (name, n) = schema_decl("SCHEMA ap000; rest").unwrap();
    assert_eq!(name, "ap000");
    assert_eq!(n, 13);
    let (entities, end) = schema_body(" ENTITY a; x : REAL; END_ENTITY; ENTITY b; END_ENTITY; END_SCHEMA;");
    assert_eq!(entities.len(), 2);
    assert_eq!(entities[1].attributes.len(), 0);
    assert_eq!(end, 55);
}

#[test]
fn string_and_binary_widths() {
    let (ty, n) = paramter_type("STRING(10) FIXED;").unwrap();
    assert_eq!(ty, ParameterType::Simple(SimpleType::String_ { width_spec: Some(WidthSpec { width: 10, fixed: true }) }));
    assert_eq!(n, 16);
    let (ty, n) = paramter_type("BINARY (8);").unwrap();
    assert_eq!(ty, ParameterType::Simple(SimpleType::Binary { width_spec: Some(WidthSpec { width: 8, fixed: false }) }));
    assert_eq!(n, 10);
    assert!(paramter_type("STRING()").is_err());
    assert!(paramter_type("STRING(99999999999999999999999)").is_err());
    assert!(paramter_type("STRING(12").is_err());
    let ((names, ty, _), _) = parser::explicit_attr("label, tag : STRING(20);").unwrap();
    assert_eq!(names, vec!["label".to_string(), "tag".to_string()]);
    assert_eq!(ty, ParameterType::Simple(SimpleType::String_ { width_spec: Some(WidthSpec { width: 20, fixed: false }) }));
}

#[test]
fn remarks_side_channel() {
    let text = "SCHEMA s; (* block *) ENTITY e; -- tail\nEND_ENTITY; (* never closed";
    assert_eq!(ruststep::lexical::remarks(text), vec![" block ".to_string(), " tail".to_string()]);
    assert_eq!(ruststep::lexical::remarks("x -- to the end"), vec![" to the end".to_string()]);
    assert!(ruststep::lexical::remarks("ENTITY a; END_ENTITY;").is_empty());
}

#[test]
fn optional_attributes() {
    let ((ids, ty, optional), n) = parser::explicit_attr("x : OPTIONAL REAL;").unwrap();
    assert_eq!(ids, vec!["x".to_string()]);
    assert_eq!(ty, ParameterType::Simple(SimpleType::Real));
    assert!(optional);
    assert_eq!(n, 18);
    let (entity, _) = parser::entity_decl("ENTITY e; a, b : OPTIONAL point; c : INTEGER; END_ENTITY;").unwrap();
    let flags: Vec<bool> = entity.attributes.iter().map(|(_, _, o)| *o).collect();
    assert_eq!(flags, vec![true, true, false]);
    assert_eq!(entity.attributes[1].1, ParameterType::Named("point".to_string()));
    assert!(parser::explicit_attr("x : OPTIONAL;").is_err());
}

#[test]
fn type_declarations() {

    let (d, n) = parser::type_decl("TYPE label = STRING(80); END_TYPE;").unwrap();
    assert_eq!(d.type_id, "label");
    assert_eq!(
        d.underlying_type,
        UnderlyingType::Simple(SimpleType::String_ { width_spec: Some(WidthSpec { width: 80, fixed: false }) })
    );
    assert_eq!(d.where_clause, None);
    assert_eq!(n, 34);
    let (d, _) = parser::type_decl("TYPE length = positive_measure;\n END_TYPE;").unwrap();
    assert_eq!(d.underlying_type, UnderlyingType::Reference("positive_measure".to_string()));
    let (d, _) = parser::type_decl("TYPE colour = ENUMERATION OF (red, green); END_TYPE;").unwrap();
    assert_eq!(
        d.underlying_type,
        UnderlyingType::Enumeration {
            extensiblity: Extensiblity::NonExtensible,
            items: vec!["red".to_string(), "green".to_string()],
        }
    );
    let (d, _) = parser::type_decl("TYPE shape = SELECT (circle, square); END_TYPE;").unwrap();
    assert_eq!(
        d.underlying_type,
        UnderlyingType::Select {
            extensiblity: Extensiblity::NonExtensible,
            types: vec!["circle".to_string(), "square".to_string()],
        }
    );
    assert_eq!(parser::type_decl("TYPE x = ; END_TYPE;").unwrap_err().production, Production::TypeDecl);
    assert!(parser::type_decl("TYPE x = REAL; END_ENTITY;").is_err());
    assert!(parser::type_decl("TYPE x = ENUMERATION (a); END_TYPE;").is_err());
}
