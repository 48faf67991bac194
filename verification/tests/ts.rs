use convert_case::{Case, Casing};
use surreal_ts_core::config::Config;
use surreal_ts_core::meta::{CanonicalType, FieldMeta, TableMeta};
use surreal_ts_core::ts::{
    create_interface_name, indent, interface_name_of, map_table, map_type, prefixed, render,
    Direction, Flags, Keyword, Member, TSGenerator, TsType,
};

fn config(target_sdk: bool, links_fetched: bool) -> Config {
    Config { target_sdk, links_fetched, ..Config::default() }
}

fn field(ty: CanonicalType, has_default: bool) -> FieldMeta {
    FieldMeta { ty, has_default, comment: None }
}

fn optional(inner: CanonicalType) -> CanonicalType {
    CanonicalType::Optional { inner: Box::new(inner) }
}

fn record(tables: &[&str]) -> CanonicalType {
    CanonicalType::Record { tables: tables.iter().map(|t| t.to_string()).collect() }
}

fn ts(ty: &CanonicalType, direction: Direction, target_sdk: bool, links_fetched: bool) -> String {
    let config = config(target_sdk, links_fetched);
    TSGenerator::new(&config).get_ts_type(ty, direction, 1)
}

#[test]
fn interface_names_are_in_pascal_case() {
    assert_eq!(create_interface_name("user", true), "OutUser");
    assert_eq!(create_interface_name("user", false), "InUser");
    assert_eq!(create_interface_name("user_profile", true), "OutUserProfile");
    assert_eq!(create_interface_name("user-profile", false), "InUserProfile");
    assert_eq!(create_interface_name("userProfile", false), "InUserProfile");
    assert_eq!(interface_name_of("blog post", Direction::Out), "OutBlogPost");
    assert_eq!(
        create_interface_name("order_2_items", true),
        format!("Out{}", "order_2_items".to_case(Case::Pascal))
    );
    assert_eq!(prefixed("Thing", Direction::In), "InThing");
    assert_eq!(prefixed("", Direction::Out), "Out");
}

#[test]
fn plain_types_have_their_typescript_names() {
    let cases = vec![
        (CanonicalType::Any, "any"),
        (CanonicalType::Null, "null"),
        (CanonicalType::Boolean, "boolean"),
        (CanonicalType::Number, "number"),
        (CanonicalType::Text, "string"),
        (CanonicalType::Bytes, "ArrayBuffer"),
        (CanonicalType::Object { fields: None }, "object"),
    ];
    for (ty, expected) in cases {
        assert_eq!(ts(&ty, Direction::In, true, false), expected);
        assert_eq!(ts(&ty, Direction::Out, false, true), expected);
    }
}

#[test]
fn client_types_are_used_only_where_they_are_wanted() {
    assert_eq!(ts(&CanonicalType::Decimal, Direction::In, true, false), "Decimal");
    assert_eq!(ts(&CanonicalType::Decimal, Direction::In, false, false), "number");
    assert_eq!(ts(&CanonicalType::Duration, Direction::Out, true, false), "Duration");
    assert_eq!(ts(&CanonicalType::Duration, Direction::Out, false, false), "string");
    assert_eq!(ts(&CanonicalType::Uuid, Direction::In, true, false), "Uuid");
    assert_eq!(ts(&CanonicalType::Uuid, Direction::In, false, false), "string");
}

#[test]
fn dates_are_written_as_dates_or_texts_and_read_as_texts() {
    assert_eq!(ts(&CanonicalType::Date, Direction::In, true, false), "Date | string");
    assert_eq!(ts(&CanonicalType::Date, Direction::Out, true, false), "string");
}

#[test]
fn wrappers_are_rendered_around_their_types() {
    assert_eq!(
        ts(&optional(CanonicalType::Number), Direction::Out, true, false),
        "number | undefined"
    );
    assert_eq!(
        ts(&CanonicalType::Array { item: Box::new(CanonicalType::Date) }, Direction::In, true, false),
        "Array<Date | string>"
    );
    assert_eq!(
        ts(
            &CanonicalType::Array { item: Box::new(optional(CanonicalType::Text)) },
            Direction::Out,
            true,
            false
        ),
        "Array<string | undefined>"
    );
}

#[test]
fn references_depend_on_direction_and_fetching() {
    assert_eq!(ts(&record(&["user"]), Direction::In, true, false), "Required<InUser>['id']");
    assert_eq!(ts(&record(&["user"]), Direction::Out, true, true), "OutUser");
    assert_eq!(ts(&record(&["user"]), Direction::Out, true, false), "OutUser | OutUser['id']");
    assert_eq!(
        ts(&record(&["user", "blog_post"]), Direction::In, true, false),
        "Required<InUser>['id'] | Required<InBlogPost>['id']"
    );
    assert_eq!(
        ts(&record(&["user", "blog_post"]), Direction::Out, false, false),
        "OutUser | OutUser['id'] | OutBlogPost | OutBlogPost['id']"
    );
}

#[test]
fn references_to_any_table_are_identifiers() {
    assert_eq!(ts(&record(&[]), Direction::In, true, false), "RecordId");
    assert_eq!(ts(&record(&[]), Direction::In, false, false), "string");
    assert_eq!(ts(&record(&[]), Direction::Out, true, true), "unknown");
    assert_eq!(ts(&record(&[]), Direction::Out, true, false), "unknown | RecordId");
    assert_eq!(ts(&record(&[]), Direction::Out, false, false), "unknown | string");
}

#[test]
fn unions_enumerations_and_literals_are_rendered() {
    let union = CanonicalType::Union {
        variants: vec![CanonicalType::Text, CanonicalType::Null, CanonicalType::Date],
    };
    assert_eq!(ts(&union, Direction::In, true, false), "string | null | Date | string");
    assert_eq!(
        ts(
            &CanonicalType::TextEnum { variants: vec!["a".to_string(), "b c".to_string()] },
            Direction::In,
            true,
            false
        ),
        "'a' | 'b c'"
    );
    assert_eq!(
        ts(
            &CanonicalType::NumberEnum {
                variants: vec![(1.0f64).to_string(), (2.5f64).to_string()]
            },
            Direction::Out,
            true,
            false
        ),
        "1 | 2.5"
    );
    assert_eq!(
        ts(&CanonicalType::TextLiteral { value: "x".to_string() }, Direction::In, true, false),
        "'x'"
    );
    assert_eq!(
        ts(
            &CanonicalType::NumberLiteral { value: (-3.0f64).to_string() },
            Direction::In,
            true,
            false
        ),
        "-3"
    );
    assert_eq!(
        ts(
            &CanonicalType::Tuple {
                items: vec![CanonicalType::Number, CanonicalType::Text, CanonicalType::Date]
            },
            Direction::In,
            true,
            false
        ),
        "[number, string, Date | string]"
    );
    assert_eq!(ts(&CanonicalType::Tuple { items: vec![] }, Direction::In, true, false), "[]");
    assert_eq!(ts(&CanonicalType::Union { variants: vec![] }, Direction::In, true, false), "");
}

#[test]
fn a_field_with_a_default_may_be_left_out_when_written() {
    let fields = vec![
        ("age".to_string(), field(CanonicalType::Number, true)),
        ("name".to_string(), field(CanonicalType::Text, false)),
        ("nick".to_string(), field(optional(CanonicalType::Text), false)),
    ];
    let config = config(true, false);
    let generator = TSGenerator::new(&config);
    assert_eq!(
        generator.get_object_definition(&fields, Direction::In, None, 1),
        "{\n  age?: number,\n  name: string,\n  nick?: string | undefined,\n}"
    );
    assert_eq!(
        generator.get_object_definition(&fields, Direction::Out, None, 1),
        "{\n  age: number,\n  name: string,\n  nick?: string | undefined,\n}"
    );
    let written = map_type(
        &CanonicalType::Object { fields: Some(fields) },
        Direction::In,
        Flags { target_sdk: true, links_fetched: false },
    );
    match written {
        TsType::Object(members) => {
            let optional: Vec<bool> = members.iter().map(|m| m.optional).collect();
            assert_eq!(optional, vec![true, false, true]);
        }
        other => panic!("no object: {:?}", other),
    }
}

#[test]
fn nested_objects_are_indented() {
    let inner = CanonicalType::Object {
        fields: Some(vec![
            ("city".to_string(), field(CanonicalType::Text, false)),
            (
                "geo".to_string(),
                field(
                    CanonicalType::Object {
                        fields: Some(vec![("lat".to_string(), field(CanonicalType::Number, false))]),
                    },
                    false,
                ),
            ),
        ]),
    };
    assert_eq!(
        ts(&inner, Direction::Out, true, false),
        "{\n    city: string,\n    geo: {\n      lat: number,\n    },\n  }"
    );
    assert_eq!(
        ts(
            &CanonicalType::Object { fields: Some(vec![]) },
            Direction::Out,
            true,
            false
        ),
        "{\n  }"
    );
    assert_eq!(
        ts(
            &CanonicalType::Array { item: Box::new(CanonicalType::Object { fields: Some(vec![
                ("a".to_string(), field(CanonicalType::Null, false))
            ]) }) },
            Direction::Out,
            true,
            false
        ),
        "Array<{\n    a: null,\n  }>"
    );
}

#[test]
fn an_object_without_a_shape_is_opaque_and_one_with_a_field_is_expanded() {
    let opaque = CanonicalType::Object { fields: None };
    let known = CanonicalType::Object {
        fields: Some(vec![("x".to_string(), field(CanonicalType::Number, false))]),
    };
    let flags = Flags { target_sdk: true, links_fetched: false };
    assert_eq!(map_type(&opaque, Direction::Out, flags), TsType::Keyword(Keyword::Object));
    assert_eq!(
        map_type(&known, Direction::Out, flags),
        TsType::Object(vec![Member {
            name: "x".to_string(),
            optional: false,
            ty: TsType::Keyword(Keyword::Number)
        }])
    );
    assert_eq!(ts(&opaque, Direction::Out, true, false), "object");
    assert_eq!(ts(&known, Direction::Out, true, false), "{\n    x: number,\n  }");
}

fn user() -> TableMeta {
    TableMeta {
        name: "user".to_string(),
        fields: vec![
            ("friend".to_string(), field(optional(record(&["user"])), false)),
            ("name".to_string(), field(CanonicalType::Text, false)),
        ],
        comment: None,
    }
}

#[test]
fn a_table_has_its_identifier_in_front() {
    let with_client = config(true, false);
    let generator = TSGenerator::new(&with_client);
    assert_eq!(
        generator.get_table_definition(&user(), Direction::In),
        "export type InUser = {\n  id?: RecordId<\"user\">,\n  friend?: Required<InUser>['id'] | undefined,\n  name: string,\n}"
    );
    assert_eq!(
        generator.get_table_definition(&user(), Direction::Out),
        "export type OutUser = {\n  id: RecordId<\"user\">,\n  friend?: OutUser | OutUser['id'] | undefined,\n  name: string,\n}"
    );
    let plain = config(false, true);
    assert_eq!(
        TSGenerator::new(&plain).get_table_definition(&user(), Direction::Out),
        "export type OutUser = {\n  id: string,\n  friend?: OutUser | undefined,\n  name: string,\n}"
    );
    assert_eq!(
        TSGenerator::new(&plain).get_object_definition(
            &vec![],
            Direction::In,
            Some("blog_post"),
            1
        ),
        "{\n  id?: string,\n}"
    );
    match map_table(&user(), Direction::In, Flags { target_sdk: true, links_fetched: false }) {
        TsType::Object(members) => {
            assert_eq!(
                members[0],
                Member {
                    name: "id".to_string(),
                    optional: true,
                    ty: TsType::RecordIdOf { table: "user".to_string() }
                }
            );
            assert_eq!(members.len(), 3);
        }
        other => panic!("no object: {:?}", other),
    }
}

#[test]
fn the_file_holds_what_the_settings_ask_for() {
    let tables = vec![TableMeta { name: "a".to_string(), fields: vec![], comment: None }];
    let both = "export type InA = {\n  id?: RecordId<\"a\">,\n}\n\nexport type OutA = {\n  id: RecordId<\"a\">,\n}\n\n";
    let full = Config::default();
    assert_eq!(
        TSGenerator::new(&full).write_tables(&tables, "{}", "export type TableMeta = {}"),
        format!(
            "import {{ RecordId, Duration, Uuid, Decimal }} from \"surrealdb\";\n\n// ---------- TABLE TYPES ----------\n{}// ---------- TABLE META STRUCTURE ----------\nexport const tables = {{}} as const satisfies Record<string, TableMeta>\n\n// ---------- TABLE META TYPES ----------\nexport type TableMeta = {{}}\n",
            both
        )
    );
    let bare = Config { no_meta: true, target_sdk: false, ..Config::default() };
    assert_eq!(
        TSGenerator::new(&bare).write_tables(&tables, "{}", "types"),
        "// ---------- TABLE TYPES ----------\nexport type InA = {\n  id?: string,\n}\n\nexport type OutA = {\n  id: string,\n}\n\n"
    );
    let stored = Config { no_meta: true, store_meta_in_db: true, ..Config::default() };
    assert_eq!(
        TSGenerator::new(&stored).write_tables(&vec![], "{}", "types"),
        "import { RecordId, Duration, Uuid, Decimal } from \"surrealdb\";\n\n// ---------- TABLE TYPES ----------\n// ---------- TABLE META TYPES ----------\ntypes\n"
    );
}

#[test]
fn expressions_are_rendered_at_a_nesting_level() {
    assert_eq!(indent(0), "");
    assert_eq!(indent(3), "      ");
    let object = TsType::Object(vec![Member {
        name: "a".to_string(),
        optional: true,
        ty: TsType::Union(vec![
            TsType::IdOf { table: "my_table".to_string(), direction: Direction::Out },
            TsType::Keyword(Keyword::Undefined),
        ]),
    }]);
    assert_eq!(render(&object, 0), "{\n  a?: OutMyTable['id'] | undefined,\n}");
    assert_eq!(render(&object, 2), "{\n      a?: OutMyTable['id'] | undefined,\n    }");
    assert_eq!(
        render(&TsType::Interface { table: "x".to_string(), direction: Direction::In }, 0),
        "InX"
    );
}
