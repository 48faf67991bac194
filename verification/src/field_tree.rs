//! The nested shape of one table's fields: objects with named children, and
//! leaves that name a plain type or a referenced table.
//!
//! The children of an object are kept as a list of entries in the order of
//! their keys, each key once. Contracts speak of a tree through its view, a
//! [`TreeModel`].
use vstd::prelude::*;
use vstd::string::*;
use crate::parser::{decode, decoded, DecodeError, DescriptorModel};
use crate::ordered::{
    ascending, index_of, insert, keyed, lemma_index_of, lemma_put_ascending, lemma_put_is_found,
    lemma_put_keeps_others, lemma_update_ascending, lemma_update_keeps_keys, position, put,
};
use crate::text::{lemma_split_on_is_not_empty, same_text, split, split_on, texts};

verus! {

/// A field of a plain type, or a reference to a table.
#[derive(Debug, PartialEq, Eq)]
pub struct Leaf {
    pub name: String,
    pub is_record: bool,
}

/// An object: its fields by name, in the order of the names.
#[derive(Debug, PartialEq, Eq)]
pub struct Node {
    pub fields: Vec<(String, FieldTree)>,
}

/// What a field holds.
#[derive(Debug, PartialEq, Eq)]
pub enum FieldType {
    Node(Node),
    Leaf(Leaf),
}

/// A field with everything declared below it.
#[derive(Debug, PartialEq, Eq)]
pub struct FieldTree {
    pub is_optional: bool,
    pub is_array: bool,
    pub comment: Option<String>,
    pub kind: FieldType,
}

/// Why a tree could not be built or extended.
#[derive(Debug, Clone, Copy, PartialEq, Eq, Structural)]
pub enum FieldTreeError {
    /// The field definition could not be decoded.
    ParsingError(DecodeError),
    /// The path leads through a field that does not exist or is no object.
    InsertError,
}

/// What a field holds, as mathematics.
pub enum ShapeModel {
    Node(Seq<(Seq<char>, TreeModel)>),
    Leaf { name: Seq<char>, is_record: bool },
}

/// A field with everything declared below it, as mathematics.
pub struct TreeModel {
    pub is_optional: bool,
    pub is_array: bool,
    pub comment: Option<Seq<char>>,
    pub shape: ShapeModel,
}

/// The entries of an object, each by its view.
pub open spec fn entries_model(es: Seq<(String, FieldTree)>) -> Seq<(Seq<char>, TreeModel)>
    decreases es,
{
    if es.len() == 0 {
        Seq::empty()
    } else {
        entries_model(es.drop_last()).push((es.last().0@, es.last().1.model()))
    }
}

impl FieldTree {
    /// The tree as mathematics.
    pub open spec fn model(&self) -> TreeModel
        decreases self,
    {
        TreeModel {
            is_optional: self.is_optional,
            is_array: self.is_array,
            comment: match self.comment {
                Some(c) => Some(c@),
                None => None,
            },
            shape: match self.kind {
                FieldType::Leaf(l) => ShapeModel::Leaf { name: l.name@, is_record: l.is_record },
                FieldType::Node(n) => ShapeModel::Node(entries_model(n.fields@)),
            },
        }
    }
}

impl View for FieldTree {
    type V = TreeModel;

    open spec fn view(&self) -> TreeModel {
        self.model()
    }
}

impl View for Node {
    type V = Seq<(Seq<char>, TreeModel)>;

    open spec fn view(&self) -> Seq<(Seq<char>, TreeModel)> {
        entries_model(self.fields@)
    }
}

/// The view of a list of entries is made entry by entry.
pub proof fn lemma_entries_model(es: Seq<(String, FieldTree)>)
    ensures
        entries_model(es).len() == es.len(),
        forall|i: int|
            0 <= i < es.len() ==> #[trigger] entries_model(es)[i] == (es[i].0@, es[i].1@),
    decreases es.len(),
{
    if es.len() > 0 {
        lemma_entries_model(es.drop_last());
    }
}

/// The view of a list of entries is the list of the views.
pub proof fn lemma_entries_keyed(es: Seq<(String, FieldTree)>)
    ensures
        entries_model(es) == keyed(es),
{
    lemma_entries_model(es);
    assert(entries_model(es) =~= keyed(es));
}

/// Replacing an entry replaces its view.
pub proof fn lemma_entries_update(es: Seq<(String, FieldTree)>, i: int, e: (String, FieldTree))
    requires
        0 <= i < es.len(),
    ensures
        entries_model(es.update(i, e)) == entries_model(es).update(i, (e.0@, e.1@)),
{
    lemma_entries_model(es);
    lemma_entries_model(es.update(i, e));
    assert(entries_model(es.update(i, e)) =~= entries_model(es).update(i, (e.0@, e.1@)));
}

impl TreeModel {
    /// The subtree at the end of the path `steps`, each step the name of a
    /// field of the object reached so far.
    pub open spec fn lookup(self, steps: Seq<Seq<char>>) -> Option<TreeModel>
        decreases steps.len(),
    {
        if steps.len() == 0 {
            Some(self)
        } else {
            match self.shape {
                ShapeModel::Leaf { .. } => None,
                ShapeModel::Node(es) => match index_of(es, steps[0]) {
                    None => None,
                    Some(i) => es[i].1.lookup(steps.skip(1)),
                },
            }
        }
    }

    /// The tree with `tree` in place of the subtree at the end of `steps`;
    /// the tree itself where the path leads nowhere.
    pub open spec fn replaced(self, steps: Seq<Seq<char>>, tree: TreeModel) -> TreeModel
        decreases steps.len(),
    {
        if steps.len() == 0 {
            tree
        } else {
            match self.shape {
                ShapeModel::Leaf { .. } => self,
                ShapeModel::Node(es) => match index_of(es, steps[0]) {
                    None => self,
                    Some(i) => TreeModel {
                        shape: ShapeModel::Node(
                            es.update(i, (es[i].0, es[i].1.replaced(steps.skip(1), tree))),
                        ),
                        ..self
                    },
                },
            }
        }
    }

    /// The object with the field `key` bound to `tree`.
    pub open spec fn with_field(self, key: Seq<char>, tree: TreeModel) -> TreeModel
        recommends
            self.shape is Node,
    {
        TreeModel { shape: ShapeModel::Node(put(self.shape->Node_0, key, tree)), ..self }
    }

    /// The tree after `tree` was inserted at the dotted path `path`: bound to
    /// the last step in the object that the steps before it lead to, in place
    /// of what was bound to it before. No tree where those steps do not lead
    /// to an object.
    pub open spec fn inserted(self, path: Seq<char>, tree: TreeModel) -> Option<TreeModel> {
        let steps = split_on(path, '.');
        let parent = steps.drop_last();
        match self.lookup(parent) {
            Some(p) => if p.shape is Node {
                Some(self.replaced(parent, p.with_field(steps.last(), tree)))
            } else {
                None
            },
            None => None,
        }
    }

    /// In every object of the tree the keys strictly ascend.
    pub open spec fn wf(self) -> bool
        decreases self,
    {
        match self.shape {
            ShapeModel::Leaf { .. } => true,
            ShapeModel::Node(es) => ascending(es) && forall|i: int|
                0 <= i < es.len() ==> (#[trigger] es[i]).1.wf(),
        }
    }
}

/// The tree that a decoded definition stands for: an object without fields
/// where the type is named `object`, a leaf of that name otherwise.
pub open spec fn tree_of(d: DescriptorModel) -> TreeModel {
    TreeModel {
        is_optional: d.is_optional,
        is_array: d.is_array,
        comment: d.comment,
        shape: if d.name == "object"@ {
            ShapeModel::Node(Seq::empty())
        } else {
            ShapeModel::Leaf { name: d.name, is_record: d.is_record }
        },
    }
}

impl Node {
    /// An object without fields.
    pub fn new() -> (r: Node)
        ensures
            r@ == Seq::<(Seq<char>, TreeModel)>::empty(),
    {
        Node { fields: Vec::new() }
    }

    /// Position of the field named `key`.
    pub fn position(&self, key: &String) -> (r: Option<usize>)
        ensures
            match r {
                Some(i) => index_of(self@, key@) == Some(i as int) && i < self.fields.len(),
                None => index_of(self@, key@) is None,
            },
    {
        proof {
            lemma_entries_keyed(self.fields@);
        }
        position(&self.fields, key)
    }

    /// Binds `key` to `tree`, in place of what was bound to it before.
    pub fn insert(&mut self, key: String, tree: FieldTree)
        ensures
            final(self)@ == put(old(self)@, key@, tree@),
            ascending(old(self)@) ==> ascending(final(self)@),
    {
        proof {
            lemma_entries_keyed(self.fields@);
            if ascending(self@) {
                lemma_put_ascending(self@, key@, tree@);
            }
        }
        insert(&mut self.fields, key, tree);
        proof {
            lemma_entries_keyed(self.fields@);
        }
    }
}

impl Default for Node {
    fn default() -> (r: Node)
        ensures
            r@ == Seq::<(Seq<char>, TreeModel)>::empty(),
    {
        Node::new()
    }
}

impl FieldTree {
    /// The tree that a decoded definition stands for.
    pub fn from(definition: &str) -> (r: Result<FieldTree, FieldTreeError>)
        ensures
            match decoded(definition@) {
                Ok(d) => r matches Ok(t) && t@ == tree_of(d),
                Err(e) => r matches Err(f) && f == FieldTreeError::ParsingError(e),
            },
            r matches Ok(t) ==> t@.wf(),
    {
        match decode(definition) {
            Err(e) => Err(FieldTreeError::ParsingError(e)),
            Ok(d) => {
                let kind = if same_text(d.name.as_str(), "object") {
                    FieldType::Node(Node::new())
                } else {
                    FieldType::Leaf(Leaf { name: d.name, is_record: d.is_record })
                };
                Ok(
                    FieldTree {
                        is_optional: d.is_optional,
                        is_array: d.is_array,
                        comment: d.comment,
                        kind,
                    },
                )
            },
        }
    }

    /// The same as [`FieldTree::from`].
    pub fn try_from(definition: &str) -> (r: Result<FieldTree, FieldTreeError>)
        ensures
            match decoded(definition@) {
                Ok(d) => r matches Ok(t) && t@ == tree_of(d),
                Err(e) => r matches Err(f) && f == FieldTreeError::ParsingError(e),
            },
            r matches Ok(t) ==> t@.wf(),
    {
        FieldTree::from(definition)
    }
}

impl FieldTree {
    /// Binds `key` to `tree` in the object that the steps from `from` on
    /// lead to.
    fn insert_below(&mut self, steps: &Vec<String>, from: usize, key: String, tree: FieldTree) -> (r:
        Result<(), FieldTreeError>)
        requires
            from <= steps.len(),
        ensures
            match old(self)@.lookup(texts(steps@).skip(from as int)) {
                Some(p) => if p.shape is Node {
                    r is Ok && final(self)@ == old(self)@.replaced(
                        texts(steps@).skip(from as int),
                        p.with_field(key@, tree@),
                    )
                } else {
                    r == Err::<(), FieldTreeError>(FieldTreeError::InsertError) && final(self)@
                        == old(self)@
                },
                None => r == Err::<(), FieldTreeError>(FieldTreeError::InsertError) && final(self)@ == old(self)@,
            },
        decreases steps.len() - from,
    {
        let ghost path = texts(steps@).skip(from as int);
        if from == steps.len() {
            return match &mut self.kind {
                FieldType::Leaf(_) => Err(FieldTreeError::InsertError),
                FieldType::Node(node) => {
                    node.insert(key, tree);
                    Ok(())
                },
            };
        }
        proof {
            assert(path[0] == steps@[from as int]@);
            assert(path.skip(1) =~= texts(steps@).skip(from + 1));
        }
        let ghost before = self.kind->Node_0.fields@;
        let ghost at: int = 0;
        let r = match &mut self.kind {
            FieldType::Leaf(_) => Err(FieldTreeError::InsertError),
            FieldType::Node(node) => {
                match node.position(&steps[from]) {
                    None => Err(FieldTreeError::InsertError),
                    Some(i) => {
                        proof {
                            at = i as int;
                            lemma_entries_model(node.fields@);
                        }
                        node.fields[i].1.insert_below(steps, from + 1, key, tree)
                    },
                }
            },
        };
        proof {
            if old(self).kind is Node && index_of(entries_model(before), path[0]) is Some {
                let after = self.kind->Node_0.fields@;
                assert(after =~= before.update(at, after[at]));
                lemma_entries_update(before, at, after[at]);
                lemma_entries_model(before);
                if r is Err {
                    assert(entries_model(after) =~= entries_model(before));
                }
            }
        }
        r
    }

    /// Inserts `field` at the dotted path `path`: as the field named by the
    /// last step of the object that the steps before it lead to, in place of
    /// a field of that name. Fails, and changes nothing, where those steps do
    /// not lead to an object.
    pub fn insert(&mut self, path: String, field: FieldTree) -> (r: Result<(), FieldTreeError>)
        ensures
            match old(self)@.inserted(path@, field@) {
                Some(t) => r is Ok && final(self)@ == t,
                None => r == Err::<(), FieldTreeError>(FieldTreeError::InsertError) && final(self)@ == old(self)@,
            },
            old(self)@.wf() && field@.wf() ==> final(self)@.wf(),
    {
        proof {
            lemma_inserted(self@, path@, field@);
        }
        let mut steps = split(path.as_str(), '.');
        let ghost all = steps@;
        let key = match steps.pop() {
            Some(k) => k,
            None => {
                return Err(FieldTreeError::InsertError);
            },
        };
        proof {
            assert(texts(steps@) =~= split_on(path@, '.').drop_last());
            assert(key@ == split_on(path@, '.').last());
            assert(texts(steps@).skip(0) =~= texts(steps@));
        }
        self.insert_below(&steps, 0, key, field)
    }
}

impl FieldTree {
    /// The subtree that the steps from `from` on lead to.
    fn walk(&self, steps: &Vec<String>, from: usize) -> (r: Option<&FieldTree>)
        requires
            from <= steps.len(),
        ensures
            match self@.lookup(texts(steps@).skip(from as int)) {
                Some(t) => r matches Some(found) && found@ == t,
                None => r is None,
            },
        decreases steps.len() - from,
    {
        let ghost path = texts(steps@).skip(from as int);
        if from == steps.len() {
            return Some(self);
        }
        proof {
            assert(path[0] == steps@[from as int]@);
            assert(path.skip(1) =~= texts(steps@).skip(from + 1));
        }
        match &self.kind {
            FieldType::Leaf(_) => None,
            FieldType::Node(node) => match node.position(&steps[from]) {
                None => None,
                Some(i) => {
                    proof {
                        lemma_entries_model(node.fields@);
                    }
                    node.fields[i].1.walk(steps, from + 1)
                },
            },
        }
    }

    /// The field at the dotted path `path`, each step the name of a field of
    /// the object reached so far.
    pub fn get(&self, path: &str) -> (r: Option<&FieldTree>)
        ensures
            match self@.lookup(split_on(path@, '.')) {
                Some(t) => r matches Some(found) && found@ == t,
                None => r is None,
            },
    {
        let steps = split(path, '.');
        assert(texts(steps@).skip(0) =~= texts(steps@));
        self.walk(&steps, 0)
    }

    /// A copy of the tree.
    pub fn duplicate(&self) -> (r: FieldTree)
        ensures
            r@ == self@,
        decreases self,
    {
        let comment = match &self.comment {
            Some(c) => Some(c.clone()),
            None => None,
        };
        let kind = match &self.kind {
            FieldType::Leaf(l) => FieldType::Leaf(
                Leaf { name: l.name.clone(), is_record: l.is_record },
            ),
            FieldType::Node(n) => {
                let mut fields: Vec<(String, FieldTree)> = Vec::new();
                let mut i: usize = 0;
                while i < n.fields.len()
                    invariant
                        i <= n.fields.len(),
                        fields.len() == i,
                        self.kind == FieldType::Node(*n),
                        forall|j: int|
                            0 <= j < i ==> (#[trigger] fields@[j]).0@ == n.fields@[j].0@
                                && fields@[j].1@ == n.fields@[j].1@,
                    decreases n.fields.len() - i,
                {
                    assert(*n == self.kind->Node_0);
                    assert(decreases_to!(self => self.kind));
                    assert(decreases_to!(self.kind => self.kind->Node_0));
                    assert(decreases_to!(self.kind->Node_0 => self.kind->Node_0.fields));
                    assert(decreases_to!(n.fields => n.fields@));
                    assert(decreases_to!(n.fields@ => n.fields@[i as int]));
                    assert(decreases_to!(n.fields@[i as int] => n.fields@[i as int].1));
                    assert(decreases_to!(self => n.fields@[i as int].1));
                    let child = n.fields[i].1.duplicate();
                    fields.push((n.fields[i].0.clone(), child));
                    i += 1;
                }
                proof {
                    lemma_entries_model(fields@);
                    lemma_entries_model(n.fields@);
                    assert(entries_model(fields@) =~= entries_model(n.fields@));
                }
                FieldType::Node(Node { fields })
            },
        };
        FieldTree { is_optional: self.is_optional, is_array: self.is_array, comment, kind }
    }
}

impl Clone for FieldTree {
    fn clone(&self) -> (r: FieldTree)
        ensures
            r@ == self@,
    {
        self.duplicate()
    }
}

impl FieldType {
    /// The object that the field holds.
    pub fn as_node(&self) -> (r: &Node)
        requires
            self is Node,
        ensures
            *r == self->Node_0,
    {
        match self {
            FieldType::Node(node) => node,
            FieldType::Leaf(_) => vstd::pervasive::unreached(),
        }
    }

    /// The object that the field holds, for writing.
    pub fn as_node_mut(&mut self) -> (r: &mut Node)
        requires
            *old(self) is Node,
        ensures
            *r == (*old(self))->Node_0,
            *final(self) == FieldType::Node(*final(r)),
    {
        match self {
            FieldType::Node(node) => node,
            FieldType::Leaf(_) => vstd::pervasive::unreached(),
        }
    }
}

/// What a path leads to is what its first steps lead to, followed from
/// there by the remaining ones.
pub proof fn lemma_lookup_in_two(tree: TreeModel, first: Seq<Seq<char>>, then: Seq<Seq<char>>)
    ensures
        tree.lookup(first + then) == match tree.lookup(first) {
            Some(t) => t.lookup(then),
            None => None,
        },
    decreases first.len(),
{
    if first.len() == 0 {
        assert(first + then =~= then);
    } else {
        assert((first + then)[0] == first[0]);
        assert((first + then).skip(1) =~= first.skip(1) + then);
        match tree.shape {
            ShapeModel::Leaf { .. } => {},
            ShapeModel::Node(es) => match index_of(es, first[0]) {
                None => {},
                Some(i) => {
                    lemma_lookup_in_two(es[i].1, first.skip(1), then);
                },
            },
        }
    }
}

/// What was put in place of a subtree is found where the subtree was.
pub proof fn lemma_replaced_is_found(tree: TreeModel, steps: Seq<Seq<char>>, sub: TreeModel)
    requires
        tree.lookup(steps) is Some,
    ensures
        tree.replaced(steps, sub).lookup(steps) == Some(sub),
    decreases steps.len(),
{
    if steps.len() > 0 {
        let es = tree.shape->Node_0;
        let i = index_of(es, steps[0])->0;
        lemma_index_of(es, steps[0]);
        lemma_replaced_is_found(es[i].1, steps.skip(1), sub);
        lemma_update_keeps_keys(es, i, es[i].1.replaced(steps.skip(1), sub), steps[0]);
    }
}

/// The subtrees of a well-formed tree are well-formed.
pub proof fn lemma_lookup_wf(tree: TreeModel, steps: Seq<Seq<char>>)
    requires
        tree.wf(),
        tree.lookup(steps) is Some,
    ensures
        tree.lookup(steps)->0.wf(),
    decreases steps.len(),
{
    if steps.len() > 0 {
        let es = tree.shape->Node_0;
        let i = index_of(es, steps[0])->0;
        lemma_index_of(es, steps[0]);
        lemma_lookup_wf(es[i].1, steps.skip(1));
    }
}

/// A well-formed tree stays well-formed when a well-formed tree is put in
/// place of one of its subtrees.
pub proof fn lemma_replaced_wf(tree: TreeModel, steps: Seq<Seq<char>>, sub: TreeModel)
    requires
        tree.wf(),
        sub.wf(),
    ensures
        tree.replaced(steps, sub).wf(),
    decreases steps.len(),
{
    if steps.len() > 0 {
        match tree.shape {
            ShapeModel::Leaf { .. } => {},
            ShapeModel::Node(es) => match index_of(es, steps[0]) {
                None => {},
                Some(i) => {
                    lemma_index_of(es, steps[0]);
                    lemma_replaced_wf(es[i].1, steps.skip(1), sub);
                    let child = es[i].1.replaced(steps.skip(1), sub);
                    let out = es.update(i, (es[i].0, child));
                    lemma_update_ascending(es, i, child);
                    assert forall|j: int| 0 <= j < out.len() implies (#[trigger] out[j]).1.wf() by {
                        if j != i {
                            assert(out[j] == es[j]);
                        }
                    }
                },
            },
        }
    }
}

/// An object stays well-formed when a name is bound to a well-formed tree.
pub proof fn lemma_with_field_wf(object: TreeModel, key: Seq<char>, tree: TreeModel)
    requires
        object.wf(),
        object.shape is Node,
        tree.wf(),
    ensures
        object.with_field(key, tree).wf(),
{
    let es = object.shape->Node_0;
    let out = put(es, key, tree);
    lemma_put_ascending(es, key, tree);
    lemma_index_of(es, key);
    crate::ordered::lemma_rank(es, key);
    assert forall|j: int| 0 <= j < out.len() implies (#[trigger] out[j]).1.wf() by {
        match index_of(es, key) {
            Some(i) => {
                if j != i {
                    assert(out[j] == es[j]);
                }
            },
            None => {
                let r = crate::ordered::rank(es, key);
                if j < r {
                    assert(out[j] == es[j]);
                } else if j > r {
                    assert(out[j] == es[j - 1]);
                }
            },
        }
    }
}

/// Insertion keeps a tree well-formed, and what was inserted is found at
/// its path. Insertion fails exactly where the steps before the last do not
/// lead to an object; so a field cannot be inserted before its parent.
pub proof fn lemma_inserted(tree: TreeModel, path: Seq<char>, field: TreeModel)
    ensures
        tree.inserted(path, field) is Some <==> (tree.lookup(split_on(path, '.').drop_last())
            matches Some(p) && p.shape is Node),
        tree.inserted(path, field) matches Some(t) ==> t.lookup(split_on(path, '.')) == Some(field),
        tree.inserted(path, field) matches Some(t) ==> (tree.wf() && field.wf() ==> t.wf()),
{
    let steps = split_on(path, '.');
    lemma_split_on_is_not_empty(path, '.');
    let parent = steps.drop_last();
    let key = steps.last();
    if tree.inserted(path, field) is Some {
        let p = tree.lookup(parent)->0;
        let q = p.with_field(key, field);
        let t = tree.replaced(parent, q);
        lemma_replaced_is_found(tree, parent, q);
        lemma_lookup_in_two(t, parent, seq![key]);
        assert(parent + seq![key] =~= steps);
        lemma_put_is_found(p.shape->Node_0, key, field);
        assert(seq![key].skip(1) =~= Seq::<Seq<char>>::empty());
        assert(field.lookup(Seq::<Seq<char>>::empty()) == Some(field));
        assert(q.lookup(seq![key]) == Some(field));
        if tree.wf() && field.wf() {
            lemma_lookup_wf(tree, parent);
            lemma_with_field_wf(p, key, field);
            lemma_replaced_wf(tree, parent, q);
        }
    }
}

/// The two paths part: at some step, before either of them ends, they name
/// different fields. Neither then lies above the other.
pub open spec fn parted(a: Seq<Seq<char>>, b: Seq<Seq<char>>) -> bool
    decreases a.len(),
{
    a.len() > 0 && b.len() > 0 && (a[0] != b[0] || parted(a.skip(1), b.skip(1)))
}

/// Putting a tree in place of a subtree leaves what every path leads to
/// that parts from the path of the subtree.
pub proof fn lemma_replaced_elsewhere(
    tree: TreeModel,
    steps: Seq<Seq<char>>,
    sub: TreeModel,
    other: Seq<Seq<char>>,
)
    requires
        parted(steps, other),
    ensures
        tree.replaced(steps, sub).lookup(other) == tree.lookup(other),
    decreases steps.len(),
{
    match tree.shape {
        ShapeModel::Leaf { .. } => {},
        ShapeModel::Node(es) => match index_of(es, steps[0]) {
            None => {},
            Some(i) => {
                let child = es[i].1.replaced(steps.skip(1), sub);
                let out = es.update(i, (es[i].0, child));
                lemma_index_of(es, steps[0]);
                lemma_index_of(es, other[0]);
                lemma_update_keeps_keys(es, i, child, other[0]);
                if other[0] == steps[0] {
                    lemma_replaced_elsewhere(es[i].1, steps.skip(1), sub, other.skip(1));
                } else if index_of(es, other[0]) is Some {
                    assert(out[index_of(es, other[0])->0] == es[index_of(es, other[0])->0]);
                }
            },
        },
    }
}

/// A path that parts from a path and its last step either parts from the
/// path already, or follows it and goes on with another step.
proof fn lemma_parted_at_the_end(parent: Seq<Seq<char>>, key: Seq<char>, other: Seq<Seq<char>>)
    requires
        parted(parent + seq![key], other),
    ensures
        parted(parent, other) || (parent.is_prefix_of(other) && other.len() > parent.len()
            && other[parent.len() as int] != key),
    decreases parent.len(),
{
    let steps = parent + seq![key];
    if parent.len() == 0 {
        assert(steps[0] == key);
        assert(steps.skip(1).len() == 0);
        assert(!parted(steps.skip(1), other.skip(1)));
        assert(parent =~= other.subrange(0, 0));
    } else {
        assert(steps[0] == parent[0]);
        assert(steps.skip(1) =~= parent.skip(1) + seq![key]);
        if parent[0] == other[0] {
            let a = parent.skip(1);
            let b = other.skip(1);
            assert(parted(a + seq![key], b));
            lemma_parted_at_the_end(a, key, b);
            if !parted(a, b) {
                assert(a =~= b.subrange(0, a.len() as int));
                assert forall|j: int| 0 <= j < parent.len() implies parent[j] == other[j] by {
                    if j > 0 {
                        assert(parent[j] == a[j - 1]);
                        assert(a[j - 1] == b.subrange(0, a.len() as int)[j - 1]);
                        assert(b[j - 1] == other[j]);
                    }
                }
                assert(parent =~= other.subrange(0, parent.len() as int));
                assert(b[a.len() as int] == other[parent.len() as int]);
            }
        }
    }
}

/// Insertion leaves every other field as it was: a path that parts from the
/// path of the inserted field leads to what it led to before, and the tree
/// keeps its own flags and comment. What a path above the inserted field
/// leads to does change: it holds the field afterwards.
pub proof fn lemma_inserted_elsewhere(
    tree: TreeModel,
    path: Seq<char>,
    field: TreeModel,
    other: Seq<Seq<char>>,
)
    requires
        tree.inserted(path, field) is Some,
        parted(split_on(path, '.'), other),
    ensures
        tree.inserted(path, field)->0.lookup(other) == tree.lookup(other),
        tree.inserted(path, field)->0.is_optional == tree.is_optional,
        tree.inserted(path, field)->0.is_array == tree.is_array,
        tree.inserted(path, field)->0.comment == tree.comment,
{
    let steps = split_on(path, '.');
    lemma_split_on_is_not_empty(path, '.');
    let parent = steps.drop_last();
    let key = steps.last();
    let p = tree.lookup(parent)->0;
    let q = p.with_field(key, field);
    let t = tree.replaced(parent, q);
    assert(parent + seq![key] =~= steps);
    lemma_parted_at_the_end(parent, key, other);
    if parted(parent, other) {
        lemma_replaced_elsewhere(tree, parent, q, other);
    } else {
        let rest = other.skip(parent.len() as int);
        assert(other =~= parent + rest);
        lemma_replaced_is_found(tree, parent, q);
        lemma_lookup_in_two(t, parent, rest);
        lemma_lookup_in_two(tree, parent, rest);
        assert(rest[0] == other[parent.len() as int]);
        lemma_put_keeps_others(p.shape->Node_0, key, field, rest[0]);
    }
    lemma_replaced_keeps_envelope(tree, parent, q);
}

/// Putting a tree in place of a subtree below the root leaves the flags and
/// the comment of the root; so it does where the tree put in place has
/// those of the subtree.
proof fn lemma_replaced_keeps_envelope(tree: TreeModel, steps: Seq<Seq<char>>, sub: TreeModel)
    requires
        tree.lookup(steps) matches Some(p) && p.is_optional == sub.is_optional && p.is_array
            == sub.is_array && p.comment == sub.comment,
    ensures
        tree.replaced(steps, sub).is_optional == tree.is_optional,
        tree.replaced(steps, sub).is_array == tree.is_array,
        tree.replaced(steps, sub).comment == tree.comment,
{
}

/// `after` is `before` but for the subtree at the end of `steps`, in place
/// of which it holds `sub`, if one is given; it is `before` where the path
/// leads nowhere.
pub open spec fn grafted(
    before: FieldTree,
    after: FieldTree,
    steps: Seq<Seq<char>>,
    sub: Option<FieldTree>,
) -> bool
    decreases steps.len(),
{
    if steps.len() == 0 {
        match sub {
            Some(s) => after == s,
            None => after == before,
        }
    } else {
        match before.kind {
            FieldType::Leaf(_) => after == before,
            FieldType::Node(n) => match index_of(entries_model(n.fields@), steps[0]) {
                None => after == before,
                Some(i) => {
                    &&& after.is_optional == before.is_optional
                    &&& after.is_array == before.is_array
                    &&& after.comment == before.comment
                    &&& after.kind is Node
                    &&& after.kind->Node_0.fields@.len() == n.fields@.len()
                    &&& forall|j: int|
                        0 <= j < n.fields@.len() && j != i ==> #[trigger] after.kind->Node_0.fields@[j]
                            == n.fields@[j]
                    &&& after.kind->Node_0.fields@[i].0 == n.fields@[i].0
                    &&& grafted(n.fields@[i].1, after.kind->Node_0.fields@[i].1, steps.skip(1), sub)
                },
            },
        }
    }
}

/// A grafted tree is the tree with the subtree replaced, or the tree
/// itself where no subtree is given.
pub proof fn lemma_grafted(
    before: FieldTree,
    after: FieldTree,
    steps: Seq<Seq<char>>,
    sub: Option<FieldTree>,
)
    requires
        grafted(before, after, steps, sub),
    ensures
        after@ == match sub {
            Some(s) => before@.replaced(steps, s@),
            None => before@,
        },
    decreases steps.len(),
{
    if steps.len() > 0 {
        match before.kind {
            FieldType::Leaf(_) => {},
            FieldType::Node(n) => {
                let es = entries_model(n.fields@);
                lemma_entries_model(n.fields@);
                match index_of(es, steps[0]) {
                    None => {},
                    Some(i) => {
                        lemma_index_of(es, steps[0]);
                        let fields = after.kind->Node_0.fields@;
                        lemma_entries_model(fields);
                        lemma_grafted(n.fields@[i].1, fields[i].1, steps.skip(1), sub);
                        match sub {
                            Some(s) => {
                                assert(entries_model(fields) =~= es.update(
                                    i,
                                    (es[i].0, es[i].1.replaced(steps.skip(1), s@)),
                                ));
                            },
                            None => {
                                assert(entries_model(fields) =~= es);
                            },
                        }
                    },
                }
            },
        }
    }
}

impl FieldTree {
    /// The subtree that the steps from `from` on lead to, for writing.
    fn descend(&mut self, steps: &Vec<String>, from: usize) -> (r: Option<&mut FieldTree>)
        requires
            from <= steps.len(),
        ensures
            match old(self)@.lookup(texts(steps@).skip(from as int)) {
                Some(t) => r matches Some(m) && m@ == t && grafted(
                    *old(self),
                    *final(self),
                    texts(steps@).skip(from as int),
                    Some(*final(m)),
                ),
                None => r is None && grafted(
                    *old(self),
                    *final(self),
                    texts(steps@).skip(from as int),
                    None,
                ),
            },
        decreases steps.len() - from,
    {
        let ghost path = texts(steps@).skip(from as int);
        if from == steps.len() {
            return Some(self);
        }
        proof {
            assert(path[0] == steps@[from as int]@);
            assert(path.skip(1) =~= texts(steps@).skip(from + 1));
        }
        match &mut self.kind {
            FieldType::Leaf(_) => None,
            FieldType::Node(node) => {
                match node.position(&steps[from]) {
                    None => None,
                    Some(i) => {
                        proof {
                            lemma_entries_model(node.fields@);
                        }
                        node.fields[i].1.descend(steps, from + 1)
                    },
                }
            },
        }
    }
}

impl FieldTree {
    /// The field at the dotted path `path`, for writing. Once the reference
    /// is given up, the tree is what it was but for that field, which is
    /// what was written; in views, by `lemma_grafted`, the tree with the
    /// subtree replaced.
    pub fn get_mut(&mut self, path: &str) -> (r: Option<&mut FieldTree>)
        ensures
            match old(self)@.lookup(split_on(path@, '.')) {
                Some(t) => r matches Some(m) && m@ == t && grafted(
                    *old(self),
                    *final(self),
                    split_on(path@, '.'),
                    Some(*final(m)),
                ),
                None => r is None && grafted(
                    *old(self),
                    *final(self),
                    split_on(path@, '.'),
                    None,
                ),
            },
    {
        let steps = split(path, '.');
        assert(texts(steps@).skip(0) =~= texts(steps@));
        self.descend(&steps, 0)
    }
}

} // verus!
