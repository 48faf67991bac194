//! Writes the tree of a table as TypeScript type definitions, one for the
//! shape that is written to the table and one for the shape that is read
//! from it.
use vstd::prelude::*;
use vstd::string::*;
use crate::field_tree::{
    entries_model, lemma_entries_model, FieldTree, FieldType, Leaf, Node, ShapeModel, TreeModel,
};
use crate::ordered::put;
use crate::text::{followed_by, same_text};
use crate::ts::{create_interface_name, interface_name, Direction};

verus! {

/// The direction that is read from the database, or written to it.
pub open spec fn direction_of(from_db: bool) -> Direction {
    if from_db {
        Direction::Out
    } else {
        Direction::In
    }
}

/// The TypeScript type for a leaf. A reference is, when it is read, the
/// identifier of the row or the row, and when it is written, the identifier.
/// A date is a text when it is read, and a date or a text when it is
/// written. The other names of the database stand for `boolean`, `number`
/// and `string`; an array or set without a type for its items is the empty
/// tuple; any other name stands for itself.
pub open spec fn primitive_text(name: Seq<char>, is_record: bool, from_db: bool) -> Seq<char> {
    if is_record {
        let reference = interface_name(name, direction_of(from_db));
        if from_db {
            reference + "['id'] | "@ + reference
        } else {
            "Required<"@ + reference + ">['id']"@
        }
    } else if name == "datetime"@ {
        if from_db {
            "string"@
        } else {
            "Date | string"@
        }
    } else if name == "bool"@ {
        "boolean"@
    } else if name == "decimal"@ || name == "float"@ || name == "int"@ {
        "number"@
    } else if name == "duration"@ || name == "geometry"@ {
        "string"@
    } else if name == "array"@ || name == "set"@ {
        "[]"@
    } else {
        name
    }
}

/// One tab for each level of nesting.
pub open spec fn tabs(depth: nat) -> Seq<char>
    decreases depth,
{
    if depth == 0 {
        Seq::empty()
    } else {
        tabs((depth - 1) as nat) + "\t"@
    }
}

/// The rows of the fields `es` of an object at the nesting level `depth`:
/// for each the indentation, the name and what follows the name.
pub open spec fn rows_text(es: Seq<(Seq<char>, TreeModel)>, from_db: bool, depth: nat) -> Seq<char>
    decreases es, 0int,
{
    if es.len() == 0 {
        Seq::empty()
    } else {
        rows_text(es.drop_last(), from_db, depth) + tabs(depth) + "\t"@ + es.last().0 + field_text(
            es.last().1,
            from_db,
            depth,
        )
    }
}

/// The text of an object with the fields `es` at the nesting level `depth`;
/// `object` where it has none.
pub open spec fn object_text(es: Seq<(Seq<char>, TreeModel)>, from_db: bool, depth: nat) -> Seq<char>
    decreases es, 1int,
{
    if es.len() == 0 {
        "object"@
    } else {
        "{\n"@ + rows_text(es, from_db, depth) + tabs(depth) + "}"@
    }
}

/// The type of the field `field`: an object or what its leaf stands for,
/// inside `Array<..>` where the field is an array.
pub open spec fn type_text(field: TreeModel, from_db: bool, depth: nat) -> Seq<char>
    decreases field, 2int,
{
    let inner = match field.shape {
        ShapeModel::Node(es) => object_text(es, from_db, depth + 1),
        ShapeModel::Leaf { name, is_record } => primitive_text(name, is_record, from_db),
    };
    if field.is_array {
        "Array<"@ + inner + ">"@
    } else {
        inner
    }
}

/// What follows the name of the field `field` in its row: a `?` where the
/// field is optional, a colon, its type and a line break.
pub open spec fn field_text(field: TreeModel, from_db: bool, depth: nat) -> Seq<char>
    decreases field, 3int,
{
    (if field.is_optional {
        "?: "@
    } else {
        ": "@
    }) + type_text(field, from_db, depth) + "\n"@
}

/// The identifier of the rows of a table: a text, optional when it is
/// written.
pub open spec fn id_field(from_db: bool) -> TreeModel {
    TreeModel {
        is_optional: !from_db,
        is_array: false,
        comment: None,
        shape: ShapeModel::Leaf { name: "string"@, is_record: false },
    }
}

/// The definition of the type of the rows of the table `name` with the
/// fields `es`, the identifier among them.
pub open spec fn table_text(name: Seq<char>, es: Seq<(Seq<char>, TreeModel)>, from_db: bool) -> Seq<
    char,
> {
    "export type "@ + interface_name(name, direction_of(from_db)) + " = "@ + object_text(
        put(es, "id"@, id_field(from_db)),
        from_db,
        0,
    ) + "\n\n"@
}

/// The TypeScript type for a leaf.
pub fn write_primitive(name: &str, is_record: bool, from_db: bool) -> (r: String)
    ensures
        r@ == primitive_text(name@, is_record, from_db),
{
    if is_record {
        let reference = create_interface_name(name, from_db);
        if from_db {
            let mut out = followed_by(reference.as_str(), "['id'] | ");
            out.append(reference.as_str());
            out
        } else {
            let mut out = followed_by("Required<", reference.as_str());
            out.append(">['id']");
            out
        }
    } else if same_text(name, "datetime") {
        if from_db {
            "string".to_owned()
        } else {
            "Date | string".to_owned()
        }
    } else if same_text(name, "bool") {
        "boolean".to_owned()
    } else if same_text(name, "decimal") || same_text(name, "float") || same_text(name, "int") {
        "number".to_owned()
    } else if same_text(name, "duration") || same_text(name, "geometry") {
        "string".to_owned()
    } else if same_text(name, "array") || same_text(name, "set") {
        "[]".to_owned()
    } else {
        name.to_owned()
    }
}

/// Appends the type of a field.
fn append_type(
    out: &mut String,
    field: &FieldTree,
    from_db: bool,
    indentation: &str,
    Ghost(depth): Ghost<nat>,
)
    requires
        indentation@ == tabs(depth),
    ensures
        final(out)@ == old(out)@ + type_text(field@, from_db, depth),
    decreases field, 2int,
{
    let ghost given = out@;
    if field.is_array {
        out.append("Array<");
    }
    let ghost opened = out@;
    match &field.kind {
        FieldType::Node(node) => {
            let inner = followed_by(indentation, "\t");
            proof {
                assert(decreases_to!(field => field.kind));
                assert(decreases_to!(field.kind => field.kind->Node_0));
                assert(decreases_to!(field.kind->Node_0 => field.kind->Node_0.fields));
            }
            append_object(out, &node.fields, from_db, inner.as_str(), Ghost(depth + 1));
        },
        FieldType::Leaf(leaf) => {
            let primitive = write_primitive(leaf.name.as_str(), leaf.is_record, from_db);
            out.append(primitive.as_str());
        },
    }
    if field.is_array {
        out.append(">");
        assert(out@ =~= given + type_text(field@, from_db, depth));
    }
}

/// Appends what follows the name of a field in its row.
fn append_field(
    out: &mut String,
    field: &FieldTree,
    from_db: bool,
    indentation: &str,
    Ghost(depth): Ghost<nat>,
)
    requires
        indentation@ == tabs(depth),
    ensures
        final(out)@ == old(out)@ + field_text(field@, from_db, depth),
    decreases field, 3int,
{
    let ghost given = out@;
    if field.is_optional {
        out.append("?: ");
    } else {
        out.append(": ");
    }
    append_type(out, field, from_db, indentation, Ghost(depth));
    out.append("\n");
    assert(out@ =~= given + field_text(field@, from_db, depth));
}

/// Appends the text of an object with the fields `fields`.
fn append_object(
    out: &mut String,
    fields: &Vec<(String, FieldTree)>,
    from_db: bool,
    indentation: &str,
    Ghost(depth): Ghost<nat>,
)
    requires
        indentation@ == tabs(depth),
    ensures
        final(out)@ == old(out)@ + object_text(entries_model(fields@), from_db, depth),
    decreases fields, 1int,
{
    let ghost given = out@;
    let ghost all = entries_model(fields@);
    proof {
        lemma_entries_model(fields@);
    }
    if fields.len() == 0 {
        out.append("object");
        return ;
    }
    out.append("{\n");
    let ghost head = out@;
    proof {
        assert(all.take(0) =~= Seq::<(Seq<char>, TreeModel)>::empty());
        assert(head + rows_text(all.take(0), from_db, depth) =~= head);
    }
    let mut i: usize = 0;
    while i < fields.len()
        invariant
            i <= fields.len(),
            indentation@ == tabs(depth),
            all == entries_model(fields@),
            all.len() == fields.len(),
            forall|j: int|
                0 <= j < fields.len() ==> #[trigger] all[j] == (fields@[j].0@, fields@[j].1@),
            out@ == head + rows_text(all.take(i as int), from_db, depth),
        decreases fields.len() - i,
    {
        proof {
            assert(decreases_to!(fields => fields@));
            assert(decreases_to!(fields@ => fields@[i as int]));
            assert(decreases_to!(fields@[i as int] => fields@[i as int].1));
        }
        out.append(indentation);
        out.append("\t");
        out.append(fields[i].0.as_str());
        append_field(out, &fields[i].1, from_db, indentation, Ghost(depth));
        proof {
            let next = all.take(i + 1);
            assert(next.drop_last() =~= all.take(i as int));
            assert(next.last() == all[i as int]);
            assert(out@ =~= head + rows_text(next, from_db, depth));
        }
        i += 1;
    }
    proof {
        assert(all.take(fields.len() as int) =~= all);
    }
    out.append(indentation);
    out.append("}");
    assert(out@ =~= given + object_text(all, from_db, depth));
}

/// What follows the name of a field in its row at the nesting level 0.
pub fn write_field(field: &FieldTree, from_db: bool) -> (r: String)
    ensures
        r@ == field_text(field@, from_db, 0),
{
    let mut out = String::new();
    proof {
        reveal_strlit("");
        assert(""@ =~= tabs(0));
    }
    append_field(&mut out, field, from_db, "", Ghost(0));
    proof {
        assert(Seq::<char>::empty() + field_text(field@, from_db, 0) =~= field_text(
            field@,
            from_db,
            0,
        ));
    }
    out
}

/// The text of an object with the fields `fields` at the nesting level 0.
pub fn write_object(fields: &Node, from_db: bool) -> (r: String)
    ensures
        r@ == object_text(fields@, from_db, 0),
{
    let mut out = String::new();
    proof {
        reveal_strlit("");
        assert(""@ =~= tabs(0));
    }
    append_object(&mut out, &fields.fields, from_db, "", Ghost(0));
    proof {
        assert(Seq::<char>::empty() + object_text(fields@, from_db, 0) =~= object_text(
            fields@,
            from_db,
            0,
        ));
    }
    out
}

/// The definition of the type of the rows of the table `name`. The
/// identifier of the rows is added to `fields`.
pub fn write_table(name: &str, fields: &mut Node, from_db: bool) -> (r: String)
    ensures
        final(fields)@ == put(old(fields)@, "id"@, id_field(from_db)),
        r@ == table_text(name@, old(fields)@, from_db),
{
    let id = FieldTree {
        is_optional: !from_db,
        is_array: false,
        comment: None,
        kind: FieldType::Leaf(Leaf { name: "string".to_owned(), is_record: false }),
    };
    fields.insert("id".to_owned(), id);
    let mut out = followed_by("export type ", create_interface_name(name, from_db).as_str());
    out.append(" = ");
    out.append(write_object(fields, from_db).as_str());
    out.append("\n\n");
    out
}

/// The types of the descriptions of tables and fields.
pub open spec fn meta_types_text() -> Seq<char> {
    "export type TableMeta = {\n  name: string\n  fields: FieldMeta[]\n  comment?: string\n}\n\nexport type FieldMeta = {\n  name: string\n  isOptional: boolean\n  isArray: boolean\n  type: string\n  comment?: string\n  isRecord?: true\n  fields?: FieldMeta[]\n}\n\n"@
}

/// The fields of a table, as they are after its two definitions were
/// written.
pub open spec fn with_id(es: Seq<(Seq<char>, TreeModel)>) -> Seq<(Seq<char>, TreeModel)> {
    put(put(es, "id"@, id_field(false)), "id"@, id_field(true))
}

/// The two definitions of a table: of the shape that is written, then of
/// the shape that is read.
pub open spec fn both_texts(name: Seq<char>, table: TreeModel) -> Seq<char> {
    table_text(name, table.shape->Node_0, false) + table_text(
        name,
        put(table.shape->Node_0, "id"@, id_field(false)),
        true,
    )
}

/// The definitions of the tables, in their order.
pub open spec fn tables_text(tables: Seq<(Seq<char>, TreeModel)>) -> Seq<char>
    decreases tables.len(),
{
    if tables.len() == 0 {
        Seq::empty()
    } else {
        tables_text(tables.drop_last()) + both_texts(tables.last().0, tables.last().1)
    }
}

/// The text of the file of type definitions: the types of the descriptions
/// where they are wanted, then the two definitions of every table. The
/// identifier of the rows is added to the fields of every table.
pub fn write_tables(tables: &mut Node, add_table_meta_types: bool) -> (r: String)
    requires
        forall|i: int| 0 <= i < old(tables)@.len() ==> (#[trigger] old(tables)@[i]).1.shape is Node,
    ensures
        r@ == (if add_table_meta_types {
            meta_types_text()
        } else {
            Seq::empty()
        }) + tables_text(old(tables)@),
        final(tables)@.len() == old(tables)@.len(),
        forall|i: int|
            0 <= i < old(tables)@.len() ==> #[trigger] final(tables)@[i] == (
                old(tables)@[i].0,
                TreeModel {
                    shape: ShapeModel::Node(with_id(old(tables)@[i].1.shape->Node_0)),
                    ..old(tables)@[i].1
                },
            ),
{
    let mut out = String::new();
    if add_table_meta_types {
        out.append(
            "export type TableMeta = {\n  name: string\n  fields: FieldMeta[]\n  comment?: string\n}\n\nexport type FieldMeta = {\n  name: string\n  isOptional: boolean\n  isArray: boolean\n  type: string\n  comment?: string\n  isRecord?: true\n  fields?: FieldMeta[]\n}\n\n",
        );
    }
    let ghost head = out@;
    let ghost all = tables@;
    proof {
        lemma_entries_model(tables.fields@);
        assert(all.take(0) =~= Seq::<(Seq<char>, TreeModel)>::empty());
        assert(head + tables_text(all.take(0)) =~= head);
    }
    let mut i: usize = 0;
    while i < tables.fields.len()
        invariant
            i <= tables.fields.len(),
            tables.fields.len() == all.len(),
            forall|j: int| 0 <= j < all.len() ==> (#[trigger] all[j]).1.shape is Node,
            forall|j: int|
                i <= j < all.len() ==> all[j] == (
                    (#[trigger] tables.fields@[j]).0@,
                    tables.fields@[j].1@,
                ),
            forall|j: int|
                0 <= j < i ==> ((#[trigger] tables.fields@[j]).0@, tables.fields@[j].1@) == (
                    all[j].0,
                    TreeModel {
                        shape: ShapeModel::Node(with_id(all[j].1.shape->Node_0)),
                        ..all[j].1
                    },
                ),
            out@ == head + tables_text(all.take(i as int)),
        decreases tables.fields.len() - i,
    {
        let name = tables.fields[i].0.clone();
        let ghost before = tables.fields@;
        let mut entry = tables.fields.remove(i);
        let written;
        let read;
        match &mut entry.1.kind {
            FieldType::Node(node) => {
                written = write_table(name.as_str(), node, false);
                read = write_table(name.as_str(), node, true);
            },
            FieldType::Leaf(_) => {
                written = String::new();
                read = String::new();
            },
        }
        tables.fields.insert(i, entry);
        out.append(written.as_str());
        out.append(read.as_str());
        proof {
            let next = all.take(i + 1);
            assert(next.drop_last() =~= all.take(i as int));
            assert(next.last() == all[i as int]);
            assert(all[i as int] == (before[i as int].0@, before[i as int].1@));
            assert(out@ =~= head + tables_text(next));
            assert forall|j: int| i < j < all.len() implies all[j] == (
                (#[trigger] tables.fields@[j]).0@,
                tables.fields@[j].1@,
            ) by {
                assert(tables.fields@[j] == before[j]);
            }
            assert forall|j: int| 0 <= j < i + 1 implies ((#[trigger] tables.fields@[j]).0@, tables.fields@[j].1@)
                == (
                all[j].0,
                TreeModel {
                    shape: ShapeModel::Node(with_id(all[j].1.shape->Node_0)),
                    ..all[j].1
                },
            ) by {
                if j < i {
                    assert(tables.fields@[j] == before[j]);
                }
            }
        }
        i += 1;
    }
    proof {
        assert(all.take(all.len() as int) =~= all);
        lemma_entries_model(tables.fields@);
    }
    out
}

} // verus!
