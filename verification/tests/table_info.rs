use surreal_ts_core::field_tree::{FieldTree, FieldType, Leaf, Node};
use surreal_ts_core::table_info::{
    get_discriminating_parts, get_type, get_fields, table_record, DiscriminatingFieldParts,
    FieldInfo, TableRecord,
};

fn leaf(name: &str, is_record: bool) -> FieldTree {
    FieldTree {
        is_optional: false,
        is_array: false,
        comment: None,
        kind: FieldType::Leaf(Leaf { name: name.to_string(), is_record }),
    }
}

#[test]
fn every_field_has_exactly_one_of_the_three_shapes() {
    let mut inner = Node::default();
    inner.insert("x".to_string(), leaf("number", false));
    let object = FieldTree {
        is_optional: true,
        is_array: true,
        comment: Some("o".to_string()),
        kind: FieldType::Node(inner),
    };
    assert_eq!(get_type(&object), "object");
    assert_eq!(get_type(&leaf("user", true)), "user");
    assert_eq!(get_type(&leaf("string", false)), "string");
    assert_eq!(
        get_discriminating_parts(&leaf("user", true)),
        DiscriminatingFieldParts::Record { is_record: true }
    );
    assert_eq!(get_discriminating_parts(&leaf("string", false)), DiscriminatingFieldParts::Plain);
    assert_eq!(
        get_discriminating_parts(&object),
        DiscriminatingFieldParts::SubFields {
            fields: vec![FieldInfo {
                name: "x".to_string(),
                is_optional: false,
                is_array: false,
                kind_name: "number".to_string(),
                discriminating: DiscriminatingFieldParts::Plain,
                comment: None,
            }]
        }
    );
}

#[test]
fn a_table_is_described_with_its_fields_in_order() {
    let mut root = Node::default();
    root.insert("owner".to_string(), leaf("user", true));
    root.insert(
        "meta".to_string(),
        FieldTree {
            is_optional: true,
            is_array: false,
            comment: Some("extra".to_string()),
            kind: FieldType::Node(Node::default()),
        },
    );
    let names: Vec<String> = get_fields(&root).into_iter().map(|f| f.name).collect();
    assert_eq!(names, vec!["meta", "owner"]);
    let table = FieldTree {
        is_optional: false,
        is_array: false,
        comment: Some("posts".to_string()),
        kind: FieldType::Node(root),
    };
    assert_eq!(
        table_record("post", &table),
        TableRecord {
            name: "post".to_string(),
            comment: Some("posts".to_string()),
            fields: vec![
                FieldInfo {
                    name: "meta".to_string(),
                    is_optional: true,
                    is_array: false,
                    kind_name: "object".to_string(),
                    discriminating: DiscriminatingFieldParts::SubFields { fields: vec![] },
                    comment: Some("extra".to_string()),
                },
                FieldInfo {
                    name: "owner".to_string(),
                    is_optional: false,
                    is_array: false,
                    kind_name: "user".to_string(),
                    discriminating: DiscriminatingFieldParts::Record { is_record: true },
                    comment: None,
                },
            ],
        }
    );
}
