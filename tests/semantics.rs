use ruststep::ap000::{Base, BaseAny, BaseKind, Sub};
use ruststep::ast;
use ruststep::exchange::Real;
use ruststep::parser::parse_schema;
use ruststep::ast::{Bound, Extensiblity, ParameterType, SimpleType};
use ruststep::codegen::{rust_type, simple_type_name, RustItem, RustType};
use ruststep::semantics::{Construct, LegalSchema, Namespace, Scope, SemanticError, TypeDecl, TypeRef, UnderlyingType};

fn names(v: &[&str]) -> Vec<String> {
    v.iter().map(|s| s.to_string()).collect()
}

fn namespace() -> (Namespace, Scope) {
    let scope = Scope { schema: 0 };
    let mut ns = Namespace::new();
    ns.insert(&scope, &"circle".to_string()).unwrap();
    ns.insert(&scope, &"square".to_string()).unwrap();
    (ns, scope)
}

#[test]
fn select_members_resolve() {
    let (ns, scope) = namespace();
    let input = ast::UnderlyingType::Select { extensiblity: Extensiblity::NonExtensible, types: names(&["square", "circle"]) };
    let r = UnderlyingType::legalize(&ns, &scope, &input).unwrap();
    assert_eq!(
        r,
        UnderlyingType::Select(vec![
            TypeRef::Named { schema: 0, index: 1, name: "square".to_string() },
            TypeRef::Named { schema: 0, index: 0, name: "circle".to_string() },
        ])
    );
}

#[test]
fn dangling_name_is_unresolved() {
    let (ns, scope) = namespace();
    let input = ast::UnderlyingType::Select { extensiblity: Extensiblity::Extensible, types: names(&["circle", "triangle", "hexagon"]) };
    assert_eq!(
        UnderlyingType::legalize(&ns, &scope, &input),
        Err(SemanticError::UnresolvedName("triangle".to_string()))
    );
    let input = ast::UnderlyingType::Reference("triangle".to_string());
    assert_eq!(
        UnderlyingType::legalize(&ns, &scope, &input),
        Err(SemanticError::UnresolvedName("triangle".to_string()))
    );
    let other = Scope { schema: 1 };
    let input = ast::UnderlyingType::Reference("circle".to_string());
    assert_eq!(
        UnderlyingType::legalize(&ns, &other, &input),
        Err(SemanticError::UnresolvedName("circle".to_string()))
    );
}

#[test]
fn simple_enumeration_and_aggregate() {
    let (ns, scope) = namespace();
    let input = ast::UnderlyingType::Simple(SimpleType::Integer);
    assert_eq!(
        UnderlyingType::legalize(&ns, &scope, &input),
        Ok(UnderlyingType::Simple(TypeRef::SimpleType(SimpleType::Integer)))
    );
    let input = ast::UnderlyingType::Enumeration { extensiblity: Extensiblity::NonExtensible, items: names(&["red", "green"]) };
    assert_eq!(
        UnderlyingType::legalize(&ns, &scope, &input),
        Ok(UnderlyingType::Enumeration(names(&["red", "green"])))
    );
    let input = ast::UnderlyingType::SetOf { bound: None, base: Box::new(ast::UnderlyingType::Simple(SimpleType::Real)) };
    assert_eq!(
        UnderlyingType::legalize(&ns, &scope, &input),
        Ok(UnderlyingType::SetOf { bound: None, base: Box::new(UnderlyingType::Simple(TypeRef::SimpleType(SimpleType::Real))) })
    );
}

#[test]
fn aggregates_pass_through() {
    let (ns, scope) = namespace();
    let bound = Bound { lower: "1".to_string(), upper: "?".to_string() };
    let input = ast::UnderlyingType::List {
        unique: true,
        bound: Some(bound.clone()),
        base: Box::new(ast::UnderlyingType::Array {
            unique: false,
            optional: true,
            bound: Bound { lower: "0".to_string(), upper: "n".to_string() },
            base: Box::new(ast::UnderlyingType::Reference("circle".to_string())),
        }),
    };
    assert_eq!(
        UnderlyingType::legalize(&ns, &scope, &input),
        Ok(UnderlyingType::List {
            unique: true,
            bound: Some(bound.clone()),
            base: Box::new(UnderlyingType::Array {
                unique: false,
                optional: true,
                bound: Bound { lower: "0".to_string(), upper: "n".to_string() },
                base: Box::new(UnderlyingType::Reference(TypeRef::Named { schema: 0, index: 0, name: "circle".to_string() })),
            }),
        })
    );
    let dangling = ast::UnderlyingType::Bag { bound: None, base: Box::new(ast::UnderlyingType::Reference("cube".to_string())) };
    assert_eq!(
        UnderlyingType::legalize(&ns, &scope, &dangling),
        Err(SemanticError::UnresolvedName("cube".to_string()))
    );
    let decl = ast::TypeDecl { type_id: "shapes".to_string(), underlying_type: input, where_clause: None };
    let d = TypeDecl::legalize(&ns, &scope, &decl).unwrap();
    assert_eq!(
        d.rust_item(),
        Some(RustItem::Alias {
            id: "Shapes".to_string(),
            target: RustType::Vec(Box::new(RustType::Vec(Box::new(RustType::Named("Circle".to_string()))))),
        })
    );
    let inline = ast::TypeDecl {
        type_id: "odd".to_string(),
        underlying_type: ast::UnderlyingType::SetOf {
            bound: None,
            base: Box::new(ast::UnderlyingType::Enumeration { extensiblity: Extensiblity::NonExtensible, items: names(&["a"]) }),
        },
        where_clause: None,
    };
    assert_eq!(TypeDecl::legalize(&ns, &scope, &inline).unwrap().rust_item(), None);
}

#[test]
fn aggregate_attributes_resolve() {
    let text = "SCHEMA s; ENTITY p; x : REAL; END_ENTITY; END_SCHEMA;";
    let schema = parse_schema(text).unwrap();
    let mut schema = schema;
    schema.entities[0].attributes.push((
        "pts".to_string(),
        ParameterType::List { ty: Box::new(ParameterType::Named("p".to_string())), bound_spec: None, unique: true },
        true,
    ));
    schema.entities[0].attributes.push((
        "tags".to_string(),
        ParameterType::Generic(None),
        false,
    ));
    assert_eq!(
        LegalSchema::legalize(&Scope { schema: 0 }, &schema),
        Err(SemanticError::Unimplemented(Construct::GenericType))
    );
    schema.entities[0].attributes.pop();
    let (_, legal) = LegalSchema::legalize(&Scope { schema: 0 }, &schema).unwrap();
    assert_eq!(
        legal.entities[0].attributes[1],
        (
            "pts".to_string(),
            TypeRef::List {
                bound: None,
                unique: true,
                base: Box::new(TypeRef::Named { schema: 0, index: 0, name: "p".to_string() }),
            },
            true,
        )
    );
}

#[test]
fn duplicate_declaration() {
    let (mut ns, scope) = namespace();
    assert_eq!(
        ns.insert(&scope, &"circle".to_string()),
        Err(SemanticError::DuplicateDeclaration("circle".to_string()))
    );
    assert_eq!(ns.decls.len(), 2);
    assert!(ns.insert(&Scope { schema: 1 }, &"circle".to_string()).is_ok());
}

#[test]
fn type_decl_legalize_and_generate() {
    let (ns, scope) = namespace();
    let decl = ast::TypeDecl {
        type_id: "shape_kind".to_string(),
        underlying_type: ast::UnderlyingType::Select { extensiblity: Extensiblity::NonExtensible, types: names(&["circle", "square"]) },
        where_clause: None,
    };
    let d = TypeDecl::legalize(&ns, &scope, &decl).unwrap();
    assert_eq!(d.type_id, "shape_kind");
    assert_eq!(
        d.rust_item(),
        Some(RustItem::Select {
            id: "ShapeKind".to_string(),
            members: vec![RustType::Named("Circle".to_string()), RustType::Named("Square".to_string())],
        })
    );

    let decl = ast::TypeDecl {
        type_id: "colour".to_string(),
        underlying_type: ast::UnderlyingType::Enumeration { extensiblity: Extensiblity::NonExtensible, items: names(&["DarkRed", "green"]) },
        where_clause: None,
    };
    let d = TypeDecl::legalize(&ns, &scope, &decl).unwrap();
    assert_eq!(
        d.rust_item(),
        Some(RustItem::Enumeration { id: "Colour".to_string(), variants: names(&["dark_red", "green"]) })
    );

    let decl = ast::TypeDecl {
        type_id: "length_measure".to_string(),
        underlying_type: ast::UnderlyingType::Simple(SimpleType::Real),
        where_clause: Some("WR1: SELF > 0".to_string()),
    };
    let d = TypeDecl::legalize(&ns, &scope, &decl).unwrap();
    assert_eq!(
        d.rust_item(),
        Some(RustItem::Alias { id: "LengthMeasure".to_string(), target: RustType::Simple(SimpleType::Real) })
    );

    let decl = ast::TypeDecl {
        type_id: "bad".to_string(),
        underlying_type: ast::UnderlyingType::Reference("missing".to_string()),
        where_clause: None,
    };
    assert_eq!(
        TypeDecl::legalize(&ns, &scope, &decl),
        Err(SemanticError::UnresolvedName("missing".to_string()))
    );
    assert_eq!(
        rust_type(&TypeRef::Named { schema: 0, index: 0, name: "my_circle".to_string() }),
        RustType::Named("MyCircle".to_string())
    );
}

#[test]
fn schema_legalizes_in_two_passes() {
    let text = "SCHEMA my_first_schema; ENTITY first; m_ref : second; fattr : STRING; END_ENTITY; ENTITY second; sattr : STRING; END_ENTITY; END_SCHEMA;";
    let schema = parse_schema(text).unwrap();
    let scope = Scope { schema: 0 };
    let (ns, legal) = LegalSchema::legalize(&scope, &schema).unwrap();
    assert_eq!(ns.decls.len(), 2);
    assert_eq!(legal.name, "my_first_schema");
    assert_eq!(legal.entities.len(), 2);
    assert_eq!(legal.entities[0].name, "first");
    assert_eq!(
        legal.entities[0].attributes,
        vec![
            ("m_ref".to_string(), TypeRef::Named { schema: 0, index: 1, name: "second".to_string() }, false),
            ("fattr".to_string(), TypeRef::SimpleType(SimpleType::String_ { width_spec: None }), false),
        ]
    );
    assert_eq!(
        legal.entities[1].attributes,
        vec![("sattr".to_string(), TypeRef::SimpleType(SimpleType::String_ { width_spec: None }), false)]
    );
}

#[test]
fn schema_with_dangling_name_fails() {
    let text = "SCHEMA s; ENTITY first; m_ref : third; END_ENTITY; ENTITY second; END_ENTITY; END_SCHEMA;";
    let schema = parse_schema(text).unwrap();
    assert_eq!(
        LegalSchema::legalize(&Scope { schema: 0 }, &schema),
        Err(SemanticError::UnresolvedName("third".to_string()))
    );
}

#[test]
fn schema_with_duplicate_entity_fails() {
    let text = "SCHEMA s; ENTITY a; END_ENTITY; ENTITY b; END_ENTITY; ENTITY a; x : b; END_ENTITY; END_SCHEMA;";
    let schema = parse_schema(text).unwrap();
    assert_eq!(
        LegalSchema::legalize(&Scope { schema: 0 }, &schema),
        Err(SemanticError::DuplicateDeclaration("a".to_string()))
    );
}

#[test]
fn base_family_downcast() {
    let base = Base { a: Real::new(10, -1) };
    let sub = BaseAny::Sub(Sub { base, b: Real::new(20, -1) });
    assert!(sub.is(BaseKind::Sub));
    assert!(!sub.is(BaseKind::Base));
    assert_eq!(sub.downcast_ref().map(|s| s.b), Some(Real::new(20, -1)));
    assert_eq!(*sub.as_base(), base);
    let only_base = BaseAny::Base(base);
    assert!(only_base.is(BaseKind::Base));
    assert!(only_base.downcast_ref().is_none());
}

#[test]
fn simple_type_names() {
    assert_eq!(simple_type_name(SimpleType::Real), "f64");
    assert_eq!(simple_type_name(SimpleType::Logical), "Option<bool>");
    assert_eq!(simple_type_name(SimpleType::Binary { width_spec: None }), "Vec<u8>");
}

#[test]
fn base_family_downcast_mut() {
    let base = Base { a: Real::new(10, -1) };
    let mut sub = BaseAny::Sub(Sub { base, b: Real::new(20, -1) });
    if let Some(s) = sub.downcast_mut() {
        s.b = Real::new(30, -1);
    }
    assert_eq!(sub, BaseAny::Sub(Sub { base, b: Real::new(30, -1) }));
    let mut only_base = BaseAny::Base(base);
    assert!(only_base.downcast_mut().is_none());
}
