use surreal_ts_core::field_tree::{FieldTree, FieldType, Leaf, Node};
use surreal_ts_core::tree_ts::{write_field, write_object, write_primitive, write_table, write_tables};

fn leaf(name: &str, is_record: bool, is_optional: bool, is_array: bool) -> FieldTree {
    FieldTree {
        is_optional,
        is_array,
        comment: None,
        kind: FieldType::Leaf(Leaf { name: name.to_string(), is_record }),
    }
}

fn object(fields: Vec<(&str, FieldTree)>, is_optional: bool, is_array: bool) -> FieldTree {
    let mut node = Node::default();
    for (name, field) in fields {
        node.insert(name.to_string(), field);
    }
    FieldTree { is_optional, is_array, comment: None, kind: FieldType::Node(node) }
}

#[test]
fn names_of_the_database_have_their_typescript_types() {
    assert_eq!(write_primitive("datetime", false, true), "string");
    assert_eq!(write_primitive("datetime", false, false), "Date | string");
    assert_eq!(write_primitive("bool", false, true), "boolean");
    assert_eq!(write_primitive("decimal", false, true), "number");
    assert_eq!(write_primitive("float", false, false), "number");
    assert_eq!(write_primitive("int", false, true), "number");
    assert_eq!(write_primitive("duration", false, true), "string");
    assert_eq!(write_primitive("geometry", false, false), "string");
    assert_eq!(write_primitive("array", false, true), "[]");
    assert_eq!(write_primitive("set", false, false), "[]");
    assert_eq!(write_primitive("string", false, true), "string");
    assert_eq!(write_primitive("number", false, false), "number");
    assert_eq!(write_primitive("any", false, false), "any");
}

#[test]
fn references_are_typed_by_the_interface_of_their_table() {
    assert_eq!(write_primitive("user", true, true), "OutUser['id'] | OutUser");
    assert_eq!(write_primitive("user", true, false), "Required<InUser>['id']");
    assert_eq!(write_primitive("blog_post", true, true), "OutBlogPost['id'] | OutBlogPost");
    assert_eq!(write_primitive("datetime", true, false), "Required<InDatetime>['id']");
}

#[test]
fn a_field_is_written_with_its_marks() {
    assert_eq!(write_field(&leaf("string", false, false, false), true), ": string\n");
    assert_eq!(write_field(&leaf("string", false, true, false), true), "?: string\n");
    assert_eq!(write_field(&leaf("int", false, false, true), true), ": Array<number>\n");
    assert_eq!(
        write_field(&leaf("user", true, true, true), false),
        "?: Array<Required<InUser>['id']>\n"
    );
    assert_eq!(write_field(&object(vec![], false, false), true), ": object\n");
    assert_eq!(
        write_field(&object(vec![("x", leaf("bool", false, false, false))], true, true), true),
        "?: Array<{\n\t\tx: boolean\n\t}>\n"
    );
}

#[test]
fn an_object_without_fields_is_opaque_and_one_with_fields_is_expanded() {
    assert_eq!(write_object(&Node::default(), true), "object");
    let mut node = Node::default();
    node.insert("x".to_string(), leaf("number", false, false, false));
    assert_eq!(write_object(&node, true), "{\n\tx: number\n}");
}

#[test]
fn nested_objects_are_indented_by_tabs() {
    let mut node = Node::default();
    node.insert(
        "address".to_string(),
        object(
            vec![
                ("city", leaf("string", false, false, false)),
                ("geo", object(vec![("lat", leaf("float", false, true, false))], false, false)),
            ],
            false,
            false,
        ),
    );
    node.insert("name".to_string(), leaf("string", false, false, false));
    assert_eq!(
        write_object(&node, false),
        "{\n\taddress: {\n\t\tcity: string\n\t\tgeo: {\n\t\t\tlat?: number\n\t\t}\n\t}\n\tname: string\n}"
    );
}

#[test]
fn a_table_is_written_with_its_identifier() {
    let mut node = Node::default();
    node.insert("name".to_string(), leaf("string", false, false, false));
    node.insert("born".to_string(), leaf("datetime", false, true, false));
    assert_eq!(
        write_table("user", &mut node, false),
        "export type InUser = {\n\tborn?: Date | string\n\tid?: string\n\tname: string\n}\n\n"
    );
    assert_eq!(node.fields.len(), 3);
    assert_eq!(node.fields[1], ("id".to_string(), leaf("string", false, true, false)));
    assert_eq!(
        write_table("user", &mut node, true),
        "export type OutUser = {\n\tborn?: string\n\tid: string\n\tname: string\n}\n\n"
    );
    assert_eq!(node.fields[1], ("id".to_string(), leaf("string", false, false, false)));
    let mut empty = Node::default();
    assert_eq!(
        write_table("blog_post", &mut empty, true),
        "export type OutBlogPost = {\n\tid: string\n}\n\n"
    );
}

#[test]
fn the_file_holds_both_definitions_of_every_table() {
    let mut tables = Node::default();
    tables.insert("b".to_string(), object(vec![("x", leaf("int", false, false, false))], false, false));
    tables.insert("a".to_string(), object(vec![], false, false));
    let text = write_tables(&mut tables, false);
    assert_eq!(
        text,
        "export type InA = {\n\tid?: string\n}\n\nexport type OutA = {\n\tid: string\n}\n\nexport type InB = {\n\tid?: string\n\tx: number\n}\n\nexport type OutB = {\n\tid: string\n\tx: number\n}\n\n"
    );
    assert_eq!(tables.fields[0].1.get("id"), Some(&leaf("string", false, false, false)));
    let mut none = Node::default();
    assert_eq!(
        write_tables(&mut none, true),
        "export type TableMeta = {\n  name: string\n  fields: FieldMeta[]\n  comment?: string\n}\n\nexport type FieldMeta = {\n  name: string\n  isOptional: boolean\n  isArray: boolean\n  type: string\n  comment?: string\n  isRecord?: true\n  fields?: FieldMeta[]\n}\n\n"
    );
}
