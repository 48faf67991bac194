//! The descriptions of tables and fields that are stored as records: for
//! every field its name, flags, type name and comment, and either the
//! descriptions of its own fields, or the mark of a reference, or neither.
use vstd::prelude::*;
use vstd::string::*;
use crate::field_tree::{
    entries_model, lemma_entries_model, FieldTree, FieldType, Node, ShapeModel, TreeModel,
};

verus! {

/// What tells the three kinds of fields apart.
#[derive(Debug, PartialEq, Eq)]
pub enum DiscriminatingFieldParts {
    /// The fields of an object.
    SubFields { fields: Vec<FieldInfo> },
    /// A reference to a record.
    Record { is_record: bool },
    /// A field of a plain type.
    Plain,
}

/// The description of a field.
#[derive(Debug, PartialEq, Eq)]
pub struct FieldInfo {
    pub name: String,
    pub is_optional: bool,
    pub is_array: bool,
    /// `object`, or the name of the type of a leaf.
    pub kind_name: String,
    pub discriminating: DiscriminatingFieldParts,
    pub comment: Option<String>,
}

/// The description of a table.
#[derive(Debug, PartialEq, Eq)]
pub struct TableRecord {
    pub name: String,
    pub fields: Vec<FieldInfo>,
    pub comment: Option<String>,
}

/// What tells the three kinds of fields apart, as mathematics.
pub enum PartsModel {
    SubFields { fields: Seq<InfoModel> },
    Record { is_record: bool },
    Plain,
}

/// The description of a field, as mathematics.
pub struct InfoModel {
    pub name: Seq<char>,
    pub is_optional: bool,
    pub is_array: bool,
    pub kind_name: Seq<char>,
    pub discriminating: PartsModel,
    pub comment: Option<Seq<char>>,
}

/// The description of a table, as mathematics.
pub struct RecordModel {
    pub name: Seq<char>,
    pub fields: Seq<InfoModel>,
    pub comment: Option<Seq<char>>,
}

/// The views of descriptions of fields.
pub open spec fn info_models(fs: Seq<FieldInfo>) -> Seq<InfoModel>
    decreases fs,
{
    if fs.len() == 0 {
        Seq::empty()
    } else {
        info_models(fs.drop_last()).push(fs.last().model())
    }
}

impl FieldInfo {
    /// The description as mathematics.
    pub open spec fn model(&self) -> InfoModel
        decreases self,
    {
        InfoModel {
            name: self.name@,
            is_optional: self.is_optional,
            is_array: self.is_array,
            kind_name: self.kind_name@,
            discriminating: match self.discriminating {
                DiscriminatingFieldParts::SubFields { fields } => PartsModel::SubFields {
                    fields: info_models(fields@),
                },
                DiscriminatingFieldParts::Record { is_record } => PartsModel::Record { is_record },
                DiscriminatingFieldParts::Plain => PartsModel::Plain,
            },
            comment: match self.comment {
                Some(c) => Some(c@),
                None => None,
            },
        }
    }
}

impl View for FieldInfo {
    type V = InfoModel;

    open spec fn view(&self) -> InfoModel {
        self.model()
    }
}

impl View for DiscriminatingFieldParts {
    type V = PartsModel;

    open spec fn view(&self) -> PartsModel {
        match self {
            DiscriminatingFieldParts::SubFields { fields } => PartsModel::SubFields {
                fields: info_models(fields@),
            },
            DiscriminatingFieldParts::Record { is_record } => PartsModel::Record {
                is_record: *is_record,
            },
            DiscriminatingFieldParts::Plain => PartsModel::Plain,
        }
    }
}

impl View for TableRecord {
    type V = RecordModel;

    open spec fn view(&self) -> RecordModel {
        RecordModel {
            name: self.name@,
            fields: info_models(self.fields@),
            comment: match self.comment {
                Some(c) => Some(c@),
                None => None,
            },
        }
    }
}

/// The models of a list of field descriptions, read by index.
pub proof fn lemma_info_models(fs: Seq<FieldInfo>)
    ensures
        info_models(fs).len() == fs.len(),
        forall|i: int| 0 <= i < fs.len() ==> #[trigger] info_models(fs)[i] == fs[i]@,
    decreases fs.len(),
{
    if fs.len() > 0 {
        lemma_info_models(fs.drop_last());
    }
}

/// The name of the type of a field: `object` for an object, the name of the
/// leaf otherwise.
pub open spec fn kind_name_of(field: TreeModel) -> Seq<char> {
    match field.shape {
        ShapeModel::Node(_) => "object"@,
        ShapeModel::Leaf { name, .. } => name,
    }
}

/// The descriptions of the fields `es`, in their order.
pub open spec fn described_each(es: Seq<(Seq<char>, TreeModel)>) -> Seq<InfoModel>
    decreases es, 0int,
{
    if es.len() == 0 {
        Seq::empty()
    } else {
        described_each(es.drop_last()).push(described(es.last().0, es.last().1))
    }
}

/// What tells the field apart: the descriptions of its fields for an
/// object, the mark of a reference for a leaf that refers to a record, and
/// nothing for any other leaf.
pub open spec fn parts_of(field: TreeModel) -> PartsModel
    decreases field, 1int,
{
    match field.shape {
        ShapeModel::Node(es) => PartsModel::SubFields { fields: described_each(es) },
        ShapeModel::Leaf { is_record, .. } => if is_record {
            PartsModel::Record { is_record: true }
        } else {
            PartsModel::Plain
        },
    }
}

/// The description of the field `field` named `name`.
pub open spec fn described(name: Seq<char>, field: TreeModel) -> InfoModel
    decreases field, 2int,
{
    InfoModel {
        name,
        is_optional: field.is_optional,
        is_array: field.is_array,
        kind_name: kind_name_of(field),
        discriminating: parts_of(field),
        comment: field.comment,
    }
}

/// The descriptions of a list of fields, read by index.
pub proof fn lemma_described_each(es: Seq<(Seq<char>, TreeModel)>)
    ensures
        described_each(es).len() == es.len(),
        forall|i: int|
            0 <= i < es.len() ==> #[trigger] described_each(es)[i] == described(es[i].0, es[i].1),
    decreases es.len(),
{
    if es.len() > 0 {
        lemma_described_each(es.drop_last());
    }
}

/// The name of the type of a field.
pub fn get_type(field: &FieldTree) -> (r: String)
    ensures
        r@ == kind_name_of(field@),
{
    match &field.kind {
        FieldType::Node(_) => "object".to_owned(),
        FieldType::Leaf(leaf) => leaf.name.clone(),
    }
}

/// What tells a field apart.
pub fn get_discriminating_parts(field: &FieldTree) -> (r: DiscriminatingFieldParts)
    ensures
        r@ == parts_of(field@),
    decreases field, 1int,
{
    match &field.kind {
        FieldType::Node(node) => {
            proof {
                assert(decreases_to!(field => field.kind));
                assert(decreases_to!(field.kind => field.kind->Node_0));
                assert(decreases_to!(field.kind->Node_0 => field.kind->Node_0.fields));
            }
            DiscriminatingFieldParts::SubFields { fields: describe_each(&node.fields) }
        },
        FieldType::Leaf(leaf) => {
            if leaf.is_record {
                DiscriminatingFieldParts::Record { is_record: true }
            } else {
                DiscriminatingFieldParts::Plain
            }
        },
    }
}

/// The descriptions of the fields, in their order.
fn describe_each(fields: &Vec<(String, FieldTree)>) -> (r: Vec<FieldInfo>)
    ensures
        info_models(r@) == described_each(entries_model(fields@)),
    decreases fields, 0int,
{
    let mut out: Vec<FieldInfo> = Vec::new();
    let mut i: usize = 0;
    while i < fields.len()
        invariant
            i <= fields.len(),
            out.len() == i,
            forall|j: int|
                0 <= j < i ==> (#[trigger] out@[j])@ == described(fields@[j].0@, fields@[j].1@),
        decreases fields.len() - i,
    {
        proof {
            assert(decreases_to!(fields => fields@));
            assert(decreases_to!(fields@ => fields@[i as int]));
            assert(decreases_to!(fields@[i as int] => fields@[i as int].1));
        }
        let field = &fields[i].1;
        let comment = match &field.comment {
            Some(c) => Some(c.clone()),
            None => None,
        };
        out.push(
            FieldInfo {
                name: fields[i].0.clone(),
                is_optional: field.is_optional,
                is_array: field.is_array,
                kind_name: get_type(field),
                discriminating: get_discriminating_parts(field),
                comment,
            },
        );
        i += 1;
    }
    proof {
        lemma_info_models(out@);
        lemma_entries_model(fields@);
        lemma_described_each(entries_model(fields@));
        assert(info_models(out@) =~= described_each(entries_model(fields@)));
    }
    out
}

/// The descriptions of the fields of an object, in their order.
pub fn get_fields(fields: &Node) -> (r: Vec<FieldInfo>)
    ensures
        info_models(r@) == described_each(fields@),
{
    describe_each(&fields.fields)
}

/// The description of the table `name` with the tree `table`, which is an
/// object.
pub fn table_record(name: &str, table: &FieldTree) -> (r: TableRecord)
    requires
        table.kind is Node,
    ensures
        r@ == (RecordModel {
            name: name@,
            fields: described_each(table@.shape->Node_0),
            comment: table@.comment,
        }),
{
    let comment = match &table.comment {
        Some(c) => Some(c.clone()),
        None => None,
    };
    TableRecord { name: name.to_owned(), fields: get_fields(table.kind.as_node()), comment }
}

} // verus!
