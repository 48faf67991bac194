use surreal_ts_core::field_tree::{FieldTree, FieldTreeError, FieldType, Leaf, Node};
use surreal_ts_core::generator::{Generator, GeneratorError, TableInfo};
use surreal_ts_core::parser::DecodeError;

fn root() -> FieldTree {
    FieldTree {
        is_optional: false,
        is_array: false,
        comment: None,
        kind: FieldType::Node(Node::default()),
    }
}

fn leaf(name: &str, is_record: bool, is_optional: bool, is_array: bool) -> FieldTree {
    FieldTree {
        is_optional,
        is_array,
        comment: None,
        kind: FieldType::Leaf(Leaf { name: name.to_string(), is_record }),
    }
}

fn fields(pairs: &[(&str, &str)]) -> TableInfo {
    TableInfo { fields: pairs.iter().map(|(p, d)| (p.to_string(), d.to_string())).collect() }
}

#[test]
fn the_item_declaration_wins_over_the_parameter_of_the_array() {
    let mut tree = root();
    Generator::process_field(&mut tree, "tags", "DEFINE FIELD tags ON post TYPE array<string>;")
        .unwrap();
    assert_eq!(tree.get("tags"), Some(&leaf("string", false, false, true)));
    Generator::process_field(&mut tree, "tags[*]", "DEFINE FIELD tags[*] ON post TYPE record<user>;")
        .unwrap();
    assert_eq!(tree.get("tags"), Some(&leaf("user", true, false, true)));
}

#[test]
fn the_item_declaration_types_a_bare_array() {
    let mut tree = root();
    Generator::process_field(&mut tree, "tags", "DEFINE FIELD tags ON post TYPE array;").unwrap();
    assert_eq!(tree.get("tags"), Some(&leaf("array", false, false, false)));
    Generator::process_field(&mut tree, "tags[*]", "DEFINE FIELD tags[*] ON post TYPE record<user>;")
        .unwrap();
    assert_eq!(tree.get("tags"), Some(&leaf("user", true, false, true)));
    assert_eq!(tree.kind.as_node().fields.len(), 1);
}

#[test]
fn the_item_declaration_keeps_flags_and_comment_of_the_array() {
    let mut tree = root();
    Generator::process_field(
        &mut tree,
        "tags",
        "DEFINE FIELD tags ON post TYPE option<array<string>> COMMENT 'labels';",
    )
    .unwrap();
    Generator::process_field(
        &mut tree,
        "tags[*]",
        "DEFINE FIELD tags[*] ON post TYPE number COMMENT 'one label';",
    )
    .unwrap();
    assert_eq!(
        tree.get("tags"),
        Some(&FieldTree {
            is_optional: true,
            is_array: true,
            comment: Some("labels".to_string()),
            kind: FieldType::Leaf(Leaf { name: "number".to_string(), is_record: false }),
        })
    );
}

#[test]
fn an_array_of_objects_takes_the_fields_of_its_items() {
    let mut tree = root();
    Generator::process_field(&mut tree, "items", "DEFINE FIELD items ON t TYPE array<object>;")
        .unwrap();
    Generator::process_field(&mut tree, "items[*]", "DEFINE FIELD items[*] ON t TYPE object;")
        .unwrap();
    Generator::process_field(&mut tree, "items[*].name", "DEFINE FIELD items[*].name ON t TYPE string;")
        .unwrap();
    assert_eq!(
        tree.get("items"),
        Some(&FieldTree {
            is_optional: false,
            is_array: true,
            comment: None,
            kind: FieldType::Node(Node {
                fields: vec![("name".to_string(), leaf("string", false, false, false))]
            }),
        })
    );
}

#[test]
fn a_leaf_with_object_items_becomes_an_array_of_objects() {
    let mut tree = root();
    Generator::process_field(&mut tree, "a", "DEFINE FIELD a ON t TYPE option<array> COMMENT 'list';")
        .unwrap();
    Generator::process_field(&mut tree, "a[*]", "DEFINE FIELD a[*] ON t TYPE object COMMENT 'item';")
        .unwrap();
    assert_eq!(
        tree.get("a"),
        Some(&FieldTree {
            is_optional: false,
            is_array: true,
            comment: Some("item".to_string()),
            kind: FieldType::Node(Node::default()),
        })
    );
}

#[test]
fn items_before_their_array_are_rejected() {
    let mut tree = root();
    assert_eq!(
        Generator::process_field(&mut tree, "tags[*]", "DEFINE FIELD tags[*] ON t TYPE string;"),
        Err(GeneratorError::ArrayProcessError)
    );
    assert_eq!(tree, root());
    assert_eq!(
        Generator::handle_array_item(&mut tree, "a.b", leaf("string", false, false, false)),
        Err(GeneratorError::ArrayProcessError)
    );
}

#[test]
fn plain_items_of_an_object_are_rejected() {
    let mut tree = root();
    Generator::process_field(&mut tree, "o", "DEFINE FIELD o ON t TYPE object;").unwrap();
    let before = tree.clone();
    assert_eq!(
        Generator::process_field(&mut tree, "o[*]", "DEFINE FIELD o[*] ON t TYPE string;"),
        Err(GeneratorError::UnsupportedArrayOfMixedShape)
    );
    assert_eq!(tree, before);
}

#[test]
fn a_field_below_a_missing_parent_is_rejected() {
    let mut tree = root();
    assert_eq!(
        Generator::process_field(&mut tree, "a.b.c", "DEFINE FIELD a.b.c ON t TYPE string;"),
        Err(GeneratorError::FieldProcessError(FieldTreeError::InsertError))
    );
    Generator::process_field(&mut tree, "a", "DEFINE FIELD a ON t TYPE object;").unwrap();
    Generator::process_field(&mut tree, "a.b", "DEFINE FIELD a.b ON t TYPE object;").unwrap();
    Generator::process_field(&mut tree, "a.b.c", "DEFINE FIELD a.b.c ON t TYPE string;").unwrap();
    assert_eq!(tree.get("a.b.c"), Some(&leaf("string", false, false, false)));
}

#[test]
fn a_field_that_cannot_be_decoded_is_rejected() {
    let mut tree = root();
    assert_eq!(
        Generator::process_field(&mut tree, "a", "DEFINE FIELD a ON t;"),
        Err(GeneratorError::FieldProcessError(FieldTreeError::ParsingError(
            DecodeError::MissingType
        )))
    );
    assert_eq!(tree, root());
}

#[test]
fn fields_are_processed_in_their_order() {
    let mut tree = root();
    let info = fields(&[
        ("address", "DEFINE FIELD address ON user TYPE object;"),
        ("address.city", "DEFINE FIELD address.city ON user TYPE string COMMENT 'town';"),
        ("friends", "DEFINE FIELD friends ON user TYPE option<array<record<user>>>;"),
        ("friends[*]", "DEFINE FIELD friends[*] ON user TYPE record<user>;"),
        ("name", "DEFINE FIELD name ON user TYPE string;"),
    ]);
    Generator::process_fields(&mut tree, &info).unwrap();
    let names: Vec<&str> =
        tree.kind.as_node().fields.iter().map(|(name, _)| name.as_str()).collect();
    assert_eq!(names, vec!["address", "friends", "name"]);
    assert_eq!(tree.get("address.city").unwrap().comment, Some("town".to_string()));
    assert_eq!(tree.get("friends"), Some(&leaf("user", true, true, true)));
}

#[test]
fn process_fields_stops_at_the_first_failure() {
    let mut tree = root();
    let info = fields(&[
        ("a", "DEFINE FIELD a ON user TYPE string;"),
        ("b.c", "DEFINE FIELD b.c ON user TYPE string;"),
        ("d", "DEFINE FIELD d ON user TYPE string;"),
    ]);
    assert_eq!(
        Generator::process_fields(&mut tree, &info),
        Err(GeneratorError::FieldProcessError(FieldTreeError::InsertError))
    );
    let mut expected = root();
    Generator::process_field(&mut expected, "a", "DEFINE FIELD a ON user TYPE string;").unwrap();
    assert_eq!(tree, expected);
    assert_eq!(tree.get("a"), Some(&leaf("string", false, false, false)));
    assert_eq!(tree.get("d"), None);
    assert_eq!(tree.kind.as_node().fields.len(), 1);
}

#[test]
fn a_wrapper_around_what_is_no_type_is_rejected() {
    let mut tree = root();
    assert_eq!(
        Generator::process_field(&mut tree, "a", "DEFINE FIELD a ON t TYPE option<123>;"),
        Err(GeneratorError::FieldProcessError(FieldTreeError::ParsingError(
            DecodeError::MalformedType
        )))
    );
    assert_eq!(tree, root());
    let info = fields(&[
        ("a", "DEFINE FIELD a ON t TYPE int;"),
        ("b", "DEFINE FIELD b ON t TYPE array<>;"),
    ]);
    assert_eq!(
        Generator::process_fields(&mut tree, &info),
        Err(GeneratorError::FieldProcessError(FieldTreeError::ParsingError(
            DecodeError::MalformedType
        )))
    );
    assert_eq!(tree.get("a"), Some(&leaf("int", false, false, false)));
    assert_eq!(tree.get("b"), None);
}

#[test]
fn a_table_is_processed_with_its_comment() {
    let mut generator = Generator::new();
    let info = fields(&[("name", "DEFINE FIELD name ON user TYPE string;")]);
    generator
        .process_table("user", "DEFINE TABLE user SCHEMAFULL COMMENT 'people'", &info)
        .unwrap();
    generator
        .process_table("city", "DEFINE TABLE city SCHEMAFULL", &fields(&[]))
        .unwrap();
    let tables = generator.into_tables();
    let names: Vec<&str> = tables.fields.iter().map(|(name, _)| name.as_str()).collect();
    assert_eq!(names, vec!["city", "user"]);
    assert_eq!(tables.fields[1].1.comment, Some("people".to_string()));
    assert_eq!(tables.fields[1].1.get("name"), Some(&leaf("string", false, false, false)));
    assert_eq!(tables.fields[0].1, root());
}

#[test]
fn a_table_that_is_processed_again_keeps_its_tree() {
    let mut generator = Generator::new();
    generator
        .process_table(
            "user",
            "DEFINE TABLE user COMMENT 'first'",
            &fields(&[("a", "DEFINE FIELD a ON user TYPE string;")]),
        )
        .unwrap();
    generator
        .process_table(
            "user",
            "DEFINE TABLE user COMMENT 'second'",
            &fields(&[("b", "DEFINE FIELD b ON user TYPE number;")]),
        )
        .unwrap();
    let tables = generator.into_tables();
    assert_eq!(tables.fields.len(), 1);
    assert_eq!(tables.fields[0].1.comment, Some("first".to_string()));
    assert!(tables.fields[0].1.get("a").is_some());
    assert!(tables.fields[0].1.get("b").is_some());
}

#[test]
fn a_table_that_fails_leaves_the_generator_as_it_was() {
    let mut generator = Generator::new();
    generator
        .process_table(
            "user",
            "DEFINE TABLE user",
            &fields(&[("a", "DEFINE FIELD a ON user TYPE string;")]),
        )
        .unwrap();
    assert_eq!(
        generator.process_table(
            "user",
            "DEFINE TABLE user",
            &fields(&[
                ("b", "DEFINE FIELD b ON user TYPE number;"),
                ("c[*]", "DEFINE FIELD c[*] ON user TYPE number;"),
            ]),
        ),
        Err(GeneratorError::ArrayProcessError)
    );
    assert_eq!(
        generator.process_table("post", "DEFINE TABLE post COMMENT ''", &fields(&[])),
        Err(GeneratorError::ParsingError(DecodeError::MalformedComment))
    );
    let tables = generator.into_tables();
    assert_eq!(tables.fields.len(), 1);
    assert!(tables.fields[0].1.get("b").is_none());
}
