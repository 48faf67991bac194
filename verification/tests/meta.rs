use surreal_ts_core::meta::{
    get_field_metas, get_field_type, get_union_variant, table_meta, CanonicalType, DeclaredKind,
    FieldMeta, FieldStatement, UnsupportedKind,
};

fn statement(name: &str, kind: DeclaredKind) -> FieldStatement {
    FieldStatement { name: name.to_string(), kind: Some(kind), has_default: false, comment: None }
}

fn meta(ty: CanonicalType) -> FieldMeta {
    FieldMeta { ty, has_default: false, comment: None }
}

fn text(value: &str) -> CanonicalType {
    CanonicalType::TextLiteral { value: value.to_string() }
}

fn number(value: f64) -> CanonicalType {
    CanonicalType::NumberLiteral { value: value.to_string() }
}

#[test]
fn a_union_of_text_literals_is_an_enumeration() {
    assert_eq!(
        get_union_variant(vec![text("a"), text("b"), text("c")]),
        CanonicalType::TextEnum {
            variants: vec!["a".to_string(), "b".to_string(), "c".to_string()]
        }
    );
}

#[test]
fn a_union_of_number_literals_is_an_enumeration() {
    assert_eq!(
        get_union_variant(vec![number(1.0), number(2.5)]),
        CanonicalType::NumberEnum { variants: vec!["1".to_string(), "2.5".to_string()] }
    );
}

#[test]
fn a_mixed_union_stays_a_union() {
    assert_eq!(
        get_union_variant(vec![text("a"), number(1.0)]),
        CanonicalType::Union { variants: vec![text("a"), number(1.0)] }
    );
    assert_eq!(
        get_union_variant(vec![text("a"), CanonicalType::Null]),
        CanonicalType::Union { variants: vec![text("a"), CanonicalType::Null] }
    );
}

#[test]
fn a_union_of_nothing_is_an_enumeration_of_no_text() {
    assert_eq!(get_union_variant(vec![]), CanonicalType::TextEnum { variants: vec![] });
}

#[test]
fn plain_kinds_resolve_by_name() {
    let cases = vec![
        (DeclaredKind::Any, CanonicalType::Any),
        (DeclaredKind::Null, CanonicalType::Null),
        (DeclaredKind::Bool, CanonicalType::Boolean),
        (DeclaredKind::Bytes, CanonicalType::Bytes),
        (DeclaredKind::Datetime, CanonicalType::Date),
        (DeclaredKind::Decimal, CanonicalType::Number),
        (DeclaredKind::Float, CanonicalType::Number),
        (DeclaredKind::Int, CanonicalType::Number),
        (DeclaredKind::Number, CanonicalType::Number),
        (DeclaredKind::Text, CanonicalType::Text),
        (DeclaredKind::Uuid, CanonicalType::Text),
        (DeclaredKind::Duration, CanonicalType::Text),
    ];
    for (kind, expected) in cases {
        assert_eq!(get_field_type("f", &Some(kind), &vec![], 0, false), Ok((expected, 0)));
    }
    assert_eq!(get_field_type("f", &None, &vec![], 0, false), Ok((CanonicalType::Any, 0)));
}

#[test]
fn dedicated_kinds_keep_their_own_type() {
    let cases = vec![
        (DeclaredKind::Decimal, CanonicalType::Decimal),
        (DeclaredKind::Uuid, CanonicalType::Uuid),
        (DeclaredKind::Duration, CanonicalType::Duration),
        (DeclaredKind::Float, CanonicalType::Number),
        (DeclaredKind::Text, CanonicalType::Text),
    ];
    for (kind, expected) in cases {
        assert_eq!(get_field_type("f", &Some(kind), &vec![], 0, true), Ok((expected, 0)));
    }
}

#[test]
fn an_object_without_fields_below_it_has_no_shape() {
    let statements = vec![
        statement("obj", DeclaredKind::Object),
        statement("other", DeclaredKind::Text),
    ];
    assert_eq!(
        get_field_metas(&statements, false),
        Ok(vec![
            ("obj".to_string(), meta(CanonicalType::Object { fields: None })),
            ("other".to_string(), meta(CanonicalType::Text)),
        ])
    );
}

#[test]
fn an_object_takes_the_fields_below_it() {
    let statements = vec![
        statement("obj", DeclaredKind::Object),
        statement("obj.x", DeclaredKind::Int),
        statement("obj.y", DeclaredKind::Optional(Box::new(DeclaredKind::Text))),
        statement("objx", DeclaredKind::Bool),
    ];
    assert_eq!(
        get_field_metas(&statements, false),
        Ok(vec![
            (
                "obj".to_string(),
                meta(CanonicalType::Object {
                    fields: Some(vec![
                        ("x".to_string(), meta(CanonicalType::Number)),
                        (
                            "y".to_string(),
                            meta(CanonicalType::Optional { inner: Box::new(CanonicalType::Text) })
                        ),
                    ])
                })
            ),
            ("objx".to_string(), meta(CanonicalType::Boolean)),
        ])
    );
}

#[test]
fn an_array_takes_the_declaration_of_its_items() {
    let statements = vec![
        statement("tags", DeclaredKind::ArrayOf(Box::new(DeclaredKind::Any))),
        statement("tags[*]", DeclaredKind::Record(vec!["user".to_string()])),
        statement("z", DeclaredKind::SetOf(Box::new(DeclaredKind::Int))),
    ];
    assert_eq!(
        get_field_metas(&statements, false),
        Ok(vec![
            (
                "tags".to_string(),
                meta(CanonicalType::Array {
                    item: Box::new(CanonicalType::Record { tables: vec!["user".to_string()] })
                })
            ),
            (
                "z".to_string(),
                meta(CanonicalType::Array { item: Box::new(CanonicalType::Number) })
            ),
        ])
    );
}

#[test]
fn an_array_without_a_declaration_of_its_items_keeps_its_own() {
    let statements = vec![
        statement("a", DeclaredKind::ArrayOf(Box::new(DeclaredKind::Text))),
        statement("b", DeclaredKind::Bool),
    ];
    assert_eq!(
        get_field_metas(&statements, false),
        Ok(vec![
            ("a".to_string(), meta(CanonicalType::Array { item: Box::new(CanonicalType::Text) })),
            ("b".to_string(), meta(CanonicalType::Boolean)),
        ])
    );
}

#[test]
fn an_array_kind_of_objects_takes_the_fields_of_its_items() {
    let statements = vec![
        statement("items", DeclaredKind::ArrayOf(Box::new(DeclaredKind::Object))),
        statement("items[*]", DeclaredKind::Object),
        statement("items[*].name", DeclaredKind::Text),
        statement("items[*].tags", DeclaredKind::ArrayOf(Box::new(DeclaredKind::Any))),
        statement("items[*].tags[*]", DeclaredKind::Text),
        statement("last", DeclaredKind::Null),
    ];
    assert_eq!(
        get_field_metas(&statements, false),
        Ok(vec![
            (
                "items".to_string(),
                meta(CanonicalType::Array {
                    item: Box::new(CanonicalType::Object {
                        fields: Some(vec![
                            ("name".to_string(), meta(CanonicalType::Text)),
                            (
                                "tags".to_string(),
                                meta(CanonicalType::Array { item: Box::new(CanonicalType::Text) })
                            ),
                        ])
                    })
                })
            ),
            ("last".to_string(), meta(CanonicalType::Null)),
        ])
    );
}

#[test]
fn alternatives_are_resolved_one_after_the_other() {
    let statements = vec![
        statement(
            "v",
            DeclaredKind::Either(vec![
                DeclaredKind::ArrayOf(Box::new(DeclaredKind::Any)),
                DeclaredKind::Null,
            ]),
        ),
        statement("v[*]", DeclaredKind::Int),
        statement(
            "w",
            DeclaredKind::Either(vec![
                DeclaredKind::TextLiteral("on".to_string()),
                DeclaredKind::TextLiteral("off".to_string()),
            ]),
        ),
    ];
    assert_eq!(
        get_field_metas(&statements, false),
        Ok(vec![
            (
                "v".to_string(),
                meta(CanonicalType::Union {
                    variants: vec![
                        CanonicalType::Array { item: Box::new(CanonicalType::Number) },
                        CanonicalType::Null,
                    ]
                })
            ),
            (
                "w".to_string(),
                meta(CanonicalType::TextEnum { variants: vec!["on".to_string(), "off".to_string()] })
            ),
        ])
    );
}

#[test]
fn literals_resolve_to_literals() {
    let statements = vec![
        statement(
            "pair",
            DeclaredKind::TupleLiteral(vec![
                DeclaredKind::NumberLiteral((1.5f64).to_string()),
                DeclaredKind::Text,
            ]),
        ),
        statement(
            "shape",
            DeclaredKind::ObjectLiteral(vec![
                ("y".to_string(), DeclaredKind::Int),
                ("x".to_string(), DeclaredKind::TextLiteral("k".to_string())),
            ]),
        ),
    ];
    assert_eq!(
        get_field_metas(&statements, false),
        Ok(vec![
            (
                "pair".to_string(),
                meta(CanonicalType::Tuple { items: vec![number(1.5), CanonicalType::Text] })
            ),
            (
                "shape".to_string(),
                meta(CanonicalType::Object {
                    fields: Some(vec![
                        ("x".to_string(), meta(text("k"))),
                        ("y".to_string(), meta(CanonicalType::Number)),
                    ])
                })
            ),
        ])
    );
}

#[test]
fn default_and_comment_are_carried_over() {
    let statements = vec![FieldStatement {
        name: "age".to_string(),
        kind: Some(DeclaredKind::Int),
        has_default: true,
        comment: Some("in years".to_string()),
    }];
    assert_eq!(
        get_field_metas(&statements, false),
        Ok(vec![(
            "age".to_string(),
            FieldMeta {
                ty: CanonicalType::Number,
                has_default: true,
                comment: Some("in years".to_string())
            }
        )])
    );
}

#[test]
fn a_kind_without_a_canonical_type_is_rejected_with_its_path() {
    let statements = vec![
        statement("a", DeclaredKind::Object),
        statement("a.b", DeclaredKind::Optional(Box::new(DeclaredKind::Unsupported("point".to_string())))),
        statement("c", DeclaredKind::Text),
    ];
    assert_eq!(
        get_field_metas(&statements, false),
        Err(UnsupportedKind { path: "a.b".to_string(), description: "point".to_string() })
    );
    let literal = vec![statement(
        "o",
        DeclaredKind::ObjectLiteral(vec![("k".to_string(), DeclaredKind::Unsupported("range".to_string()))]),
    )];
    assert_eq!(
        get_field_metas(&literal, false),
        Err(UnsupportedKind { path: "o.k".to_string(), description: "range".to_string() })
    );
}

#[test]
fn later_statements_replace_earlier_ones_of_the_same_name() {
    let statements = vec![
        statement("b", DeclaredKind::Text),
        statement("a", DeclaredKind::Int),
        statement("b", DeclaredKind::Bool),
    ];
    assert_eq!(
        get_field_metas(&statements, false),
        Ok(vec![
            ("a".to_string(), meta(CanonicalType::Number)),
            ("b".to_string(), meta(CanonicalType::Boolean)),
        ])
    );
}

#[test]
fn get_field_type_reports_what_it_consumed() {
    let statements = vec![
        statement("obj", DeclaredKind::Object),
        statement("obj.x", DeclaredKind::Int),
        statement("obj.y", DeclaredKind::Int),
        statement("z", DeclaredKind::Int),
    ];
    let (ty, next) = get_field_type("obj", &statements[0].kind, &statements, 1, false).unwrap();
    assert_eq!(next, 3);
    assert!(matches!(ty, CanonicalType::Object { fields: Some(_) }));
    let (ty, next) = get_field_type("z", &statements[3].kind, &statements, 4, false).unwrap();
    assert_eq!((ty, next), (CanonicalType::Number, 4));
}

#[test]
fn a_table_is_described_by_its_statements() {
    let statements = vec![statement("name", DeclaredKind::Text)];
    let table = table_meta("user", Some("people".to_string()), &statements, true).unwrap();
    assert_eq!(table.name, "user");
    assert_eq!(table.comment, Some("people".to_string()));
    assert_eq!(table.fields, vec![("name".to_string(), meta(CanonicalType::Text))]);
}

#[test]
fn the_fields_of_every_object_come_in_the_order_of_their_names() {
    let fields = vec![
        statement("b", DeclaredKind::Object),
        statement("b.z", DeclaredKind::Int),
        statement("b.m", DeclaredKind::Object),
        statement("b.m.y", DeclaredKind::Bool),
        statement("b.m.x", DeclaredKind::Text),
        statement("b.a", DeclaredKind::Text),
        statement("a", DeclaredKind::Bool),
    ];
    let inner = CanonicalType::Object {
        fields: Some(vec![
            ("x".to_string(), meta(CanonicalType::Text)),
            ("y".to_string(), meta(CanonicalType::Boolean)),
        ]),
    };
    let outer = CanonicalType::Object {
        fields: Some(vec![
            ("a".to_string(), meta(CanonicalType::Text)),
            ("m".to_string(), meta(inner)),
            ("z".to_string(), meta(CanonicalType::Number)),
        ]),
    };
    assert_eq!(
        get_field_metas(&fields, false),
        Ok(vec![
            ("a".to_string(), meta(CanonicalType::Boolean)),
            ("b".to_string(), meta(outer)),
        ])
    );
}
