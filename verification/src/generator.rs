//! Builds the tree of a table from its field definitions, which arrive as
//! pairs of a path and a definition in the order of the paths.
//!
//! A path that ends in `[*]` declares the items of the array at the path
//! before the marker; it changes that field and adds none. Every other path
//! adds a field to the object that its leading steps name.
use vstd::prelude::*;
use vstd::string::*;
use crate::field_tree::{
    entries_model, lemma_entries_model, lemma_entries_update, lemma_inserted, lemma_lookup_wf,
    lemma_replaced_is_found, lemma_replaced_wf, tree_of, FieldTree, FieldTreeError, FieldType,
    Node, ShapeModel, TreeModel,
};
use crate::ordered::{ascending, index_of, lemma_index_of, lemma_put_ascending, lemma_rank, put, rank};
use crate::parser::{comment_match, decoded, parse_comment, DecodeError};
use crate::text::{ends_in, ends_with, remove_all, split, split_on, texts, without};

verus! {

/// The tables of a database: each name with the definition of the table.
#[derive(Debug, Clone, PartialEq, Eq)]
pub struct DatabaseInfo {
    pub tables: Vec<(String, String)>,
}

/// The fields of a table: each path with the definition of the field, in
/// the order of the paths.
#[derive(Debug, Clone, PartialEq, Eq)]
pub struct TableInfo {
    pub fields: Vec<(String, String)>,
}

/// Why the tree of a table could not be built.
#[derive(Debug, Clone, Copy, PartialEq, Eq, Structural)]
pub enum GeneratorError {
    /// The definition of the table could not be decoded.
    ParsingError(DecodeError),
    /// A field could not be decoded, or its parent is missing.
    FieldProcessError(FieldTreeError),
    /// The items of an array were declared before the array.
    ArrayProcessError,
    /// The items of an object were declared to be of a plain type.
    UnsupportedArrayOfMixedShape,
}

/// The trees of the tables processed so far, by table name.
pub struct Generator {
    pub tables: Node,
}

/// The field `node` once its items are declared to be `item`. A leaf
/// becomes an array of what the item is: of the item's plain type or
/// reference, keeping its own flags and comment, or an array-flagged object
/// with the item's flag and comment. An object stays as it is where the
/// items are objects, and cannot have items of a plain type.
pub open spec fn merged(node: TreeModel, item: TreeModel) -> Option<TreeModel> {
    match node.shape {
        ShapeModel::Leaf { .. } => match item.shape {
            ShapeModel::Leaf { .. } => Some(
                TreeModel { is_array: true, shape: item.shape, ..node },
            ),
            ShapeModel::Node(_) => Some(TreeModel { is_array: true, ..item }),
        },
        ShapeModel::Node(_) => match item.shape {
            ShapeModel::Leaf { .. } => None,
            ShapeModel::Node(_) => Some(node),
        },
    }
}

/// The tree after the items of the array at `path` were declared to be
/// `item`.
pub open spec fn item_merged(tree: TreeModel, path: Seq<char>, item: TreeModel) -> Result<
    TreeModel,
    GeneratorError,
> {
    let steps = split_on(path, '.');
    match tree.lookup(steps) {
        None => Err(GeneratorError::ArrayProcessError),
        Some(node) => match merged(node, item) {
            None => Err(GeneratorError::UnsupportedArrayOfMixedShape),
            Some(m) => Ok(tree.replaced(steps, m)),
        },
    }
}

/// The tree after the definition of the field at `path` was processed.
pub open spec fn field_processed(tree: TreeModel, path: Seq<char>, definition: Seq<char>) -> Result<
    TreeModel,
    GeneratorError,
> {
    match decoded(definition) {
        Err(e) => Err(GeneratorError::FieldProcessError(FieldTreeError::ParsingError(e))),
        Ok(d) => {
            let normalized = without(path, "[*]"@);
            if ends_in(path, "[*]"@) {
                item_merged(tree, normalized, tree_of(d))
            } else {
                match tree.inserted(normalized, tree_of(d)) {
                    Some(t) => Ok(t),
                    None => Err(GeneratorError::FieldProcessError(FieldTreeError::InsertError)),
                }
            }
        },
    }
}

/// The views of pairs of strings.
pub open spec fn pairs(v: Seq<(String, String)>) -> Seq<(Seq<char>, Seq<char>)> {
    Seq::new(v.len(), |i: int| (v[i].0@, v[i].1@))
}

/// The tree after the fields were processed one after the other, up to the
/// first that fails.
pub open spec fn fields_processed(tree: TreeModel, fields: Seq<(Seq<char>, Seq<char>)>) -> Result<
    TreeModel,
    GeneratorError,
>
    decreases fields.len(),
{
    if fields.len() == 0 {
        Ok(tree)
    } else {
        match field_processed(tree, fields[0].0, fields[0].1) {
            Err(e) => Err(e),
            Ok(t) => fields_processed(t, fields.skip(1)),
        }
    }
}

/// The tree that processing the fields leaves behind: the tree with every
/// field processed that stands before the first that fails, or with all of
/// them where none fails.
pub open spec fn fields_kept(tree: TreeModel, fields: Seq<(Seq<char>, Seq<char>)>) -> TreeModel
    decreases fields.len(),
{
    if fields.len() == 0 {
        tree
    } else {
        match field_processed(tree, fields[0].0, fields[0].1) {
            Err(_) => tree,
            Ok(t) => fields_kept(t, fields.skip(1)),
        }
    }
}

/// The tree of a table before any of its fields: an object without fields.
pub open spec fn root(comment: Option<Seq<char>>) -> TreeModel {
    TreeModel {
        is_optional: false,
        is_array: false,
        comment,
        shape: ShapeModel::Node(Seq::empty()),
    }
}

/// The tables after the table `name` was processed: its fields are added to
/// the tree that the table has already, or to a new one that carries the
/// comment of the definition.
pub open spec fn table_processed(
    tables: Seq<(Seq<char>, TreeModel)>,
    name: Seq<char>,
    definition: Seq<char>,
    fields: Seq<(Seq<char>, Seq<char>)>,
) -> Result<Seq<(Seq<char>, TreeModel)>, GeneratorError> {
    match comment_match(definition) {
        None => Err(GeneratorError::ParsingError(DecodeError::MalformedComment)),
        Some(c) => {
            let start = match index_of(tables, name) {
                Some(i) => tables[i].1,
                None => root(c.comment),
            };
            match fields_processed(start, fields) {
                Ok(t) => Ok(put(tables, name, t)),
                Err(e) => Err(e),
            }
        },
    }
}

/// The explicit declaration of the items wins: where a field stands at the
/// path, merging succeeds unless the field is an object and the items are
/// not, and the field is then found merged at the path. A leaf whose items
/// are a leaf is flagged an array and takes the name and the reference mark
/// of the items, whatever it was declared with itself; a leaf whose items
/// are an object is replaced by the object, flagged an array. Merging keeps
/// a tree well-formed.
pub proof fn lemma_item_merged(tree: TreeModel, path: Seq<char>, item: TreeModel)
    ensures
        tree.lookup(split_on(path, '.')) is None ==> item_merged(tree, path, item) == Err::<
            TreeModel,
            GeneratorError,
        >(GeneratorError::ArrayProcessError),
        tree.lookup(split_on(path, '.')) matches Some(node) ==> match merged(node, item) {
            Some(m) => item_merged(tree, path, item) matches Ok(t) && t.lookup(split_on(path, '.'))
                == Some(m) && (tree.wf() && item.wf() ==> t.wf()),
            None => node.shape is Node && item.shape is Leaf,
        },
        tree.lookup(split_on(path, '.')) matches Some(node) ==> (node.shape is Leaf && item.shape
            is Leaf ==> merged(node, item) == Some(
            TreeModel { is_array: true, shape: item.shape, ..node },
        )),
        tree.lookup(split_on(path, '.')) matches Some(node) ==> (node.shape is Leaf && item.shape
            is Node ==> merged(node, item) == Some(TreeModel { is_array: true, ..item })),
{
    let steps = split_on(path, '.');
    if tree.lookup(steps) is Some {
        let node = tree.lookup(steps)->0;
        if merged(node, item) is Some {
            let m = merged(node, item)->0;
            lemma_replaced_is_found(tree, steps, m);
            if tree.wf() && item.wf() {
                lemma_lookup_wf(tree, steps);
                lemma_replaced_wf(tree, steps, m);
            }
        }
    }
}

/// Processing a field keeps a tree well-formed.
pub proof fn lemma_field_processed_wf(tree: TreeModel, path: Seq<char>, definition: Seq<char>)
    requires
        tree.wf(),
    ensures
        field_processed(tree, path, definition) matches Ok(t) ==> t.wf(),
{
    if decoded(definition) is Ok {
        let field = tree_of(decoded(definition)->Ok_0);
        let normalized = without(path, "[*]"@);
        lemma_item_merged(tree, normalized, field);
        lemma_inserted(tree, normalized, field);
    }
}

/// Processing fields keeps a tree well-formed.
pub proof fn lemma_fields_processed_wf(tree: TreeModel, fields: Seq<(Seq<char>, Seq<char>)>)
    requires
        tree.wf(),
    ensures
        fields_processed(tree, fields) matches Ok(t) ==> t.wf(),
    decreases fields.len(),
{
    if fields.len() > 0 {
        lemma_field_processed_wf(tree, fields[0].0, fields[0].1);
        if field_processed(tree, fields[0].0, fields[0].1) is Ok {
            lemma_fields_processed_wf(
                field_processed(tree, fields[0].0, fields[0].1)->Ok_0,
                fields.skip(1),
            );
        }
    }
}

/// Where no field fails, the tree that is left behind is the tree with all
/// fields processed; and whether or not one fails, it is well-formed where
/// the tree was.
pub proof fn lemma_fields_kept(tree: TreeModel, fields: Seq<(Seq<char>, Seq<char>)>)
    ensures
        fields_processed(tree, fields) matches Ok(t) ==> fields_kept(tree, fields) == t,
        tree.wf() ==> fields_kept(tree, fields).wf(),
    decreases fields.len(),
{
    if fields.len() > 0 {
        if tree.wf() {
            lemma_field_processed_wf(tree, fields[0].0, fields[0].1);
        }
        if field_processed(tree, fields[0].0, fields[0].1) is Ok {
            lemma_fields_kept(
                field_processed(tree, fields[0].0, fields[0].1)->Ok_0,
                fields.skip(1),
            );
        }
    }
}

/// The tables are in the order of their names, and their trees are
/// well-formed.
pub open spec fn tables_wf(tables: Seq<(Seq<char>, TreeModel)>) -> bool {
    ascending(tables) && forall|i: int| 0 <= i < tables.len() ==> (#[trigger] tables[i]).1.wf()
}

/// Processing a table keeps the tables well-formed.
pub proof fn lemma_table_processed_wf(
    tables: Seq<(Seq<char>, TreeModel)>,
    name: Seq<char>,
    definition: Seq<char>,
    fields: Seq<(Seq<char>, Seq<char>)>,
)
    requires
        tables_wf(tables),
    ensures
        table_processed(tables, name, definition, fields) matches Ok(t) ==> tables_wf(t),
{
    if table_processed(tables, name, definition, fields) is Ok {
        let c = comment_match(definition)->0;
        lemma_index_of(tables, name);
        lemma_rank(tables, name);
        let start = match index_of(tables, name) {
            Some(i) => tables[i].1,
            None => root(c.comment),
        };
        lemma_fields_processed_wf(start, fields);
        let t = fields_processed(start, fields)->Ok_0;
        let out = put(tables, name, t);
        lemma_put_ascending(tables, name, t);
        assert forall|j: int| 0 <= j < out.len() implies (#[trigger] out[j]).1.wf() by {
            match index_of(tables, name) {
                Some(i) => {
                    if j != i {
                        assert(out[j] == tables[j]);
                    }
                },
                None => {
                    let r = rank(tables, name);
                    if j < r {
                        assert(out[j] == tables[j]);
                    } else if j > r {
                        assert(out[j] == tables[j - 1]);
                    }
                },
            }
        }
    }
}

/// Declares the items of the field that the steps from `from` on lead to.
fn merge_below(tree: &mut FieldTree, steps: &Vec<String>, from: usize, item: FieldTree) -> (r:
    Result<(), GeneratorError>)
    requires
        from <= steps.len(),
    ensures
        match old(tree)@.lookup(texts(steps@).skip(from as int)) {
            None => r == Err::<(), GeneratorError>(GeneratorError::ArrayProcessError) && final(
                tree
            )@ == old(tree)@,
            Some(node) => match merged(node, item@) {
                None => r == Err::<(), GeneratorError>(
                    GeneratorError::UnsupportedArrayOfMixedShape,
                ) && final(tree)@ == old(tree)@,
                Some(m) => r is Ok && final(tree)@ == old(tree)@.replaced(
                    texts(steps@).skip(from as int),
                    m,
                ),
            },
        },
    decreases steps.len() - from,
{
    let ghost path = texts(steps@).skip(from as int);
    if from == steps.len() {
        let is_leaf = match &tree.kind {
            FieldType::Leaf(_) => true,
            FieldType::Node(_) => false,
        };
        let FieldTree { is_optional, is_array, comment, kind } = item;
        return match kind {
            FieldType::Leaf(leaf) => {
                if is_leaf {
                    tree.is_array = true;
                    tree.kind = FieldType::Leaf(leaf);
                    Ok(())
                } else {
                    Err(GeneratorError::UnsupportedArrayOfMixedShape)
                }
            },
            FieldType::Node(node) => {
                if is_leaf {
                    *tree = FieldTree {
                        is_optional,
                        is_array: true,
                        comment,
                        kind: FieldType::Node(node),
                    };
                }
                Ok(())
            },
        };
    }
    proof {
        assert(path[0] == steps@[from as int]@);
        assert(path.skip(1) =~= texts(steps@).skip(from + 1));
    }
    let ghost before = tree.kind->Node_0.fields@;
    let ghost at: int = 0;
    let r = match &mut tree.kind {
        FieldType::Leaf(_) => Err(GeneratorError::ArrayProcessError),
        FieldType::Node(node) => {
            match node.position(&steps[from]) {
                None => Err(GeneratorError::ArrayProcessError),
                Some(i) => {
                    proof {
                        at = i as int;
                        lemma_entries_model(node.fields@);
                    }
                    merge_below(&mut node.fields[i].1, steps, from + 1, item)
                },
            }
        },
    };
    proof {
        if old(tree).kind is Node && index_of(entries_model(before), path[0]) is Some {
            let after = tree.kind->Node_0.fields@;
            assert(after =~= before.update(at, after[at]));
            lemma_entries_update(before, at, after[at]);
            lemma_entries_model(before);
            if r is Err {
                assert(entries_model(after) =~= entries_model(before));
            }
        }
    }
    r
}

impl Generator {
    /// A generator that has processed no table.
    pub fn new() -> (r: Generator)
        ensures
            r.tables@ == Seq::<(Seq<char>, TreeModel)>::empty(),
    {
        Generator { tables: Node::new() }
    }

    /// The trees of the tables processed so far.
    pub fn into_tables(self) -> (r: Node)
        ensures
            r == self.tables,
    {
        self.tables
    }

    /// Declares the items of the array at `parent_path` to be `field`.
    /// Fails, and changes nothing, where no field stands at that path, or
    /// where an object is to have items of a plain type.
    pub fn handle_array_item(tree: &mut FieldTree, parent_path: &str, field: FieldTree) -> (r:
        Result<(), GeneratorError>)
        ensures
            match item_merged(old(tree)@, parent_path@, field@) {
                Ok(t) => r is Ok && final(tree)@ == t,
                Err(e) => r == Err::<(), GeneratorError>(e) && final(tree)@ == old(tree)@,
            },
            old(tree)@.wf() && field@.wf() ==> final(tree)@.wf(),
    {
        proof {
            lemma_item_merged(tree@, parent_path@, field@);
        }
        let steps = split(parent_path, '.');
        assert(texts(steps@).skip(0) =~= texts(steps@));
        merge_below(tree, &steps, 0, field)
    }

    /// Processes the definition of the field at `path`. Fails, and changes
    /// nothing, where the definition cannot be decoded or the path does not
    /// fit the tree.
    pub fn process_field(tree: &mut FieldTree, path: &str, definition: &str) -> (r: Result<
        (),
        GeneratorError,
    >)
        ensures
            match field_processed(old(tree)@, path@, definition@) {
                Ok(t) => r is Ok && final(tree)@ == t,
                Err(e) => r == Err::<(), GeneratorError>(e) && final(tree)@ == old(tree)@,
            },
            old(tree)@.wf() ==> final(tree)@.wf(),
    {
        proof {
            if tree@.wf() {
                lemma_field_processed_wf(tree@, path@, definition@);
            }
        }
        let field = match FieldTree::from(definition) {
            Ok(f) => f,
            Err(e) => {
                return Err(GeneratorError::FieldProcessError(e));
            },
        };
        let normalized = remove_all(path, "[*]");
        if ends_with(path, "[*]") {
            Generator::handle_array_item(tree, normalized.as_str(), field)
        } else {
            match tree.insert(normalized, field) {
                Ok(()) => Ok(()),
                Err(e) => Err(GeneratorError::FieldProcessError(e)),
            }
        }
    }

    /// Processes the fields one after the other, up to the first that fails.
    /// The tree then holds the fields that were processed before that one.
    pub fn process_fields(tree: &mut FieldTree, info: &TableInfo) -> (r: Result<(), GeneratorError>)
        ensures
            match fields_processed(old(tree)@, pairs(info.fields@)) {
                Ok(t) => r is Ok && final(tree)@ == t,
                Err(e) => r == Err::<(), GeneratorError>(e),
            },
            final(tree)@ == fields_kept(old(tree)@, pairs(info.fields@)),
            old(tree)@.wf() ==> final(tree)@.wf(),
    {
        let mut i: usize = 0;
        assert(pairs(info.fields@).skip(0) =~= pairs(info.fields@));
        while i < info.fields.len()
            invariant
                i <= info.fields.len(),
                old(tree)@.wf() ==> tree@.wf(),
                fields_processed(old(tree)@, pairs(info.fields@)) == fields_processed(
                    tree@,
                    pairs(info.fields@).skip(i as int),
                ),
                fields_kept(old(tree)@, pairs(info.fields@)) == fields_kept(
                    tree@,
                    pairs(info.fields@).skip(i as int),
                ),
            decreases info.fields.len() - i,
        {
            let ghost rest = pairs(info.fields@).skip(i as int);
            proof {
                assert(rest[0] == (info.fields@[i as int].0@, info.fields@[i as int].1@));
                assert(rest.skip(1) =~= pairs(info.fields@).skip(i + 1));
            }
            match Generator::process_field(
                tree,
                info.fields[i].0.as_str(),
                info.fields[i].1.as_str(),
            ) {
                Ok(()) => {},
                Err(e) => {
                    return Err(e);
                },
            }
            i += 1;
        }
        Ok(())
    }

    /// Processes the table `name` with its fields. On failure the generator
    /// is left as it was.
    pub fn process_table(&mut self, name: &str, definition: &str, info: &TableInfo) -> (r: Result<
        (),
        GeneratorError,
    >)
        ensures
            match table_processed(old(self).tables@, name@, definition@, pairs(info.fields@)) {
                Ok(t) => r is Ok && final(self).tables@ == t,
                Err(e) => r == Err::<(), GeneratorError>(e) && final(self).tables@ == old(
                    self
                ).tables@,
            },
            tables_wf(old(self).tables@) ==> tables_wf(final(self).tables@),
    {
        proof {
            if tables_wf(self.tables@) {
                lemma_table_processed_wf(self.tables@, name@, definition@, pairs(info.fields@));
            }
        }
        let comment = match parse_comment(definition) {
            Ok((_, Some(text))) => Some(text.to_owned()),
            Ok((_, None)) => None,
            Err(e) => {
                return Err(GeneratorError::ParsingError(e));
            },
        };
        let key = name.to_owned();
        let mut tree = match self.tables.position(&key) {
            Some(i) => {
                proof {
                    lemma_entries_model(self.tables.fields@);
                }
                self.tables.fields[i].1.duplicate()
            },
            None => FieldTree {
                is_optional: false,
                is_array: false,
                comment,
                kind: FieldType::Node(Node::new()),
            },
        };
        match Generator::process_fields(&mut tree, info) {
            Ok(()) => {
                self.tables.insert(key, tree);
                Ok(())
            },
            Err(e) => Err(e),
        }
    }
}

} // verus!
