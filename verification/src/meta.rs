//! The canonical type model of a table, and how the declared kinds of its
//! field statements resolve to it.
//!
//! The statements of a table come in the order of their paths, so that the
//! fields of an object follow the object, and the declaration of the items of
//! an array, at the path of the array with `[*]` behind it, follows the
//! array. Resolving a statement consumes the statements that belong to it.
use vstd::prelude::*;
use vstd::string::*;
use crate::ordered::{
    ascending, index_of, insert, keyed, lemma_index_of, lemma_put_ascending, lemma_rank, put, rank,
};
use crate::text::{begins_with, clone_texts, followed_by, same_text, texts};

verus! {

/// The kind that a field statement declares.
#[derive(Debug, PartialEq, Eq)]
pub enum DeclaredKind {
    Any,
    Null,
    Bool,
    Bytes,
    Datetime,
    Decimal,
    Duration,
    Float,
    Int,
    Number,
    Object,
    Text,
    Uuid,
    /// A reference to a row of one of the tables; of any table where none
    /// is named.
    Record(Vec<String>),
    Optional(Box<DeclaredKind>),
    Either(Vec<DeclaredKind>),
    SetOf(Box<DeclaredKind>),
    ArrayOf(Box<DeclaredKind>),
    TextLiteral(String),
    /// A number literal, as the decimal text of the number.
    NumberLiteral(String),
    TupleLiteral(Vec<DeclaredKind>),
    ObjectLiteral(Vec<(String, DeclaredKind)>),
    /// A kind that has no canonical type, with a description of it.
    Unsupported(String),
}

/// One field statement of a table.
#[derive(Debug, PartialEq, Eq)]
pub struct FieldStatement {
    /// The path of the field.
    pub name: String,
    pub kind: Option<DeclaredKind>,
    pub has_default: bool,
    pub comment: Option<String>,
}

/// The canonical type of a field.
#[derive(Debug, PartialEq, Eq)]
#[allow(inconsistent_fields)]
pub enum CanonicalType {
    Any,
    Null,
    Boolean,
    Text,
    Number,
    Date,
    Bytes,
    Decimal,
    Duration,
    Uuid,
    Optional { inner: Box<CanonicalType> },
    Array { item: Box<CanonicalType> },
    /// An object; without fields where its shape was not declared.
    Object { fields: Option<Vec<(String, FieldMeta)>> },
    Record { tables: Vec<String> },
    Union { variants: Vec<CanonicalType> },
    /// One of several texts.
    TextEnum { variants: Vec<String> },
    /// One of several numbers, each as its decimal text.
    NumberEnum { variants: Vec<String> },
    TextLiteral { value: String },
    NumberLiteral { value: String },
    Tuple { items: Vec<CanonicalType> },
}

/// A field of a table or of an object.
#[derive(Debug, PartialEq, Eq)]
pub struct FieldMeta {
    pub ty: CanonicalType,
    pub has_default: bool,
    pub comment: Option<String>,
}

/// A table: its fields by name, in the order of the names.
#[derive(Debug, PartialEq, Eq)]
pub struct TableMeta {
    pub name: String,
    pub fields: Vec<(String, FieldMeta)>,
    pub comment: Option<String>,
}

/// A kind that could not be resolved, and the path of the field that
/// declares it.
#[derive(Debug, Clone, PartialEq, Eq)]
pub struct UnsupportedKind {
    pub path: String,
    pub description: String,
}

/// A declared kind, as mathematics.
pub enum KindModel {
    Any,
    Null,
    Bool,
    Bytes,
    Datetime,
    Decimal,
    Duration,
    Float,
    Int,
    Number,
    Object,
    Text,
    Uuid,
    Record(Seq<Seq<char>>),
    Optional(Box<KindModel>),
    Either(Seq<KindModel>),
    SetOf(Box<KindModel>),
    ArrayOf(Box<KindModel>),
    TextLiteral(Seq<char>),
    NumberLiteral(Seq<char>),
    TupleLiteral(Seq<KindModel>),
    ObjectLiteral(Seq<(Seq<char>, KindModel)>),
    Unsupported(Seq<char>),
}

/// A field statement, as mathematics.
pub struct StatementModel {
    pub name: Seq<char>,
    pub kind: Option<KindModel>,
    pub has_default: bool,
    pub comment: Option<Seq<char>>,
}

/// A canonical type, as mathematics.
#[allow(inconsistent_fields)]
pub enum TypeModel {
    Any,
    Null,
    Boolean,
    Text,
    Number,
    Date,
    Bytes,
    Decimal,
    Duration,
    Uuid,
    Optional { inner: Box<TypeModel> },
    Array { item: Box<TypeModel> },
    Object { fields: Option<Seq<(Seq<char>, MetaModel)>> },
    Record { tables: Seq<Seq<char>> },
    Union { variants: Seq<TypeModel> },
    TextEnum { variants: Seq<Seq<char>> },
    NumberEnum { variants: Seq<Seq<char>> },
    TextLiteral { value: Seq<char> },
    NumberLiteral { value: Seq<char> },
    Tuple { items: Seq<TypeModel> },
}

/// A field, as mathematics.
pub struct MetaModel {
    pub ty: TypeModel,
    pub has_default: bool,
    pub comment: Option<Seq<char>>,
}

/// A table, as mathematics.
pub struct TableModel {
    pub name: Seq<char>,
    pub fields: Seq<(Seq<char>, MetaModel)>,
    pub comment: Option<Seq<char>>,
}

/// An unresolved kind, as mathematics.
pub struct UnsupportedModel {
    pub path: Seq<char>,
    pub description: Seq<char>,
}

/// The view of an optional string.
pub open spec fn optional_text(s: Option<String>) -> Option<Seq<char>> {
    match s {
        Some(t) => Some(t@),
        None => None,
    }
}

/// The views of declared kinds.
pub open spec fn kind_models(ks: Seq<DeclaredKind>) -> Seq<KindModel>
    decreases ks,
{
    if ks.len() == 0 {
        Seq::empty()
    } else {
        kind_models(ks.drop_last()).push(ks.last().model())
    }
}

/// The views of named declared kinds.
pub open spec fn named_kind_models(ks: Seq<(String, DeclaredKind)>) -> Seq<(Seq<char>, KindModel)>
    decreases ks,
{
    if ks.len() == 0 {
        Seq::empty()
    } else {
        named_kind_models(ks.drop_last()).push((ks.last().0@, ks.last().1.model()))
    }
}

impl DeclaredKind {
    /// The kind as mathematics.
    pub open spec fn model(&self) -> KindModel
        decreases self,
    {
        match self {
            DeclaredKind::Any => KindModel::Any,
            DeclaredKind::Null => KindModel::Null,
            DeclaredKind::Bool => KindModel::Bool,
            DeclaredKind::Bytes => KindModel::Bytes,
            DeclaredKind::Datetime => KindModel::Datetime,
            DeclaredKind::Decimal => KindModel::Decimal,
            DeclaredKind::Duration => KindModel::Duration,
            DeclaredKind::Float => KindModel::Float,
            DeclaredKind::Int => KindModel::Int,
            DeclaredKind::Number => KindModel::Number,
            DeclaredKind::Object => KindModel::Object,
            DeclaredKind::Text => KindModel::Text,
            DeclaredKind::Uuid => KindModel::Uuid,
            DeclaredKind::Record(tables) => KindModel::Record(texts(tables@)),
            DeclaredKind::Optional(inner) => KindModel::Optional(Box::new(inner.model())),
            DeclaredKind::Either(kinds) => KindModel::Either(kind_models(kinds@)),
            DeclaredKind::SetOf(inner) => KindModel::SetOf(Box::new(inner.model())),
            DeclaredKind::ArrayOf(inner) => KindModel::ArrayOf(Box::new(inner.model())),
            DeclaredKind::TextLiteral(value) => KindModel::TextLiteral(value@),
            DeclaredKind::NumberLiteral(value) => KindModel::NumberLiteral(value@),
            DeclaredKind::TupleLiteral(kinds) => KindModel::TupleLiteral(kind_models(kinds@)),
            DeclaredKind::ObjectLiteral(entries) => KindModel::ObjectLiteral(
                named_kind_models(entries@),
            ),
            DeclaredKind::Unsupported(description) => KindModel::Unsupported(description@),
        }
    }
}

impl View for DeclaredKind {
    type V = KindModel;

    open spec fn view(&self) -> KindModel {
        self.model()
    }
}

impl View for FieldStatement {
    type V = StatementModel;

    open spec fn view(&self) -> StatementModel {
        StatementModel {
            name: self.name@,
            kind: match self.kind {
                Some(k) => Some(k@),
                None => None,
            },
            has_default: self.has_default,
            comment: optional_text(self.comment),
        }
    }
}

/// The views of canonical types.
pub open spec fn type_models(ts: Seq<CanonicalType>) -> Seq<TypeModel>
    decreases ts,
{
    if ts.len() == 0 {
        Seq::empty()
    } else {
        type_models(ts.drop_last()).push(ts.last().model())
    }
}

/// The views of named fields.
pub open spec fn meta_models(fs: Seq<(String, FieldMeta)>) -> Seq<(Seq<char>, MetaModel)>
    decreases fs,
{
    if fs.len() == 0 {
        Seq::empty()
    } else {
        meta_models(fs.drop_last()).push((fs.last().0@, fs.last().1.model()))
    }
}

impl CanonicalType {
    /// The type as mathematics.
    pub open spec fn model(&self) -> TypeModel
        decreases self,
    {
        match self {
            CanonicalType::Any => TypeModel::Any,
            CanonicalType::Null => TypeModel::Null,
            CanonicalType::Boolean => TypeModel::Boolean,
            CanonicalType::Text => TypeModel::Text,
            CanonicalType::Number => TypeModel::Number,
            CanonicalType::Date => TypeModel::Date,
            CanonicalType::Bytes => TypeModel::Bytes,
            CanonicalType::Decimal => TypeModel::Decimal,
            CanonicalType::Duration => TypeModel::Duration,
            CanonicalType::Uuid => TypeModel::Uuid,
            CanonicalType::Optional { inner } => TypeModel::Optional {
                inner: Box::new(inner.model()),
            },
            CanonicalType::Array { item } => TypeModel::Array { item: Box::new(item.model()) },
            CanonicalType::Object { fields } => TypeModel::Object {
                fields: match fields {
                    Some(fs) => Some(meta_models(fs@)),
                    None => None,
                },
            },
            CanonicalType::Record { tables } => TypeModel::Record {
                tables: texts(tables@),
            },
            CanonicalType::Union { variants } => TypeModel::Union {
                variants: type_models(variants@),
            },
            CanonicalType::TextEnum { variants } => TypeModel::TextEnum {
                variants: texts(variants@),
            },
            CanonicalType::NumberEnum { variants } => TypeModel::NumberEnum {
                variants: texts(variants@),
            },
            CanonicalType::TextLiteral { value } => TypeModel::TextLiteral { value: value@ },
            CanonicalType::NumberLiteral { value } => TypeModel::NumberLiteral { value: value@ },
            CanonicalType::Tuple { items } => TypeModel::Tuple { items: type_models(items@) },
        }
    }
}

impl FieldMeta {
    /// The field as mathematics.
    pub open spec fn model(&self) -> MetaModel
        decreases self,
    {
        MetaModel {
            ty: self.ty.model(),
            has_default: self.has_default,
            comment: optional_text(self.comment),
        }
    }
}

impl View for CanonicalType {
    type V = TypeModel;

    open spec fn view(&self) -> TypeModel {
        self.model()
    }
}

impl View for FieldMeta {
    type V = MetaModel;

    open spec fn view(&self) -> MetaModel {
        self.model()
    }
}

impl View for TableMeta {
    type V = TableModel;

    open spec fn view(&self) -> TableModel {
        TableModel {
            name: self.name@,
            fields: meta_models(self.fields@),
            comment: optional_text(self.comment),
        }
    }
}

impl View for UnsupportedKind {
    type V = UnsupportedModel;

    open spec fn view(&self) -> UnsupportedModel {
        UnsupportedModel { path: self.path@, description: self.description@ }
    }
}

impl TypeModel {
    /// In every object of the type, at any depth, the names of the fields
    /// strictly ascend.
    pub open spec fn wf(self) -> bool
        decreases self,
    {
        match self {
            TypeModel::Optional { inner } => inner.wf(),
            TypeModel::Array { item } => item.wf(),
            TypeModel::Object { fields } => match fields {
                Some(fs) => ascending(fs) && forall|i: int|
                    0 <= i < fs.len() ==> (#[trigger] fs[i]).1.ty.wf(),
                None => true,
            },
            TypeModel::Union { variants } => forall|i: int|
                0 <= i < variants.len() ==> (#[trigger] variants[i]).wf(),
            TypeModel::Tuple { items } => forall|i: int|
                0 <= i < items.len() ==> (#[trigger] items[i]).wf(),
            _ => true,
        }
    }
}

/// Each of the types is well-formed.
pub open spec fn types_wf(ts: Seq<TypeModel>) -> bool {
    forall|i: int| 0 <= i < ts.len() ==> (#[trigger] ts[i]).wf()
}

/// The fields are in the order of their names, and their types are
/// well-formed.
pub open spec fn fields_wf(fs: Seq<(Seq<char>, MetaModel)>) -> bool {
    ascending(fs) && forall|i: int| 0 <= i < fs.len() ==> (#[trigger] fs[i]).1.ty.wf()
}

/// The models of a list of kinds, read by index.
pub proof fn lemma_kind_models(ks: Seq<DeclaredKind>)
    ensures
        kind_models(ks).len() == ks.len(),
        forall|i: int| 0 <= i < ks.len() ==> #[trigger] kind_models(ks)[i] == ks[i]@,
    decreases ks.len(),
{
    if ks.len() > 0 {
        lemma_kind_models(ks.drop_last());
    }
}

/// The models of a list of named kinds, read by index.
pub proof fn lemma_named_kind_models(ks: Seq<(String, DeclaredKind)>)
    ensures
        named_kind_models(ks).len() == ks.len(),
        forall|i: int|
            0 <= i < ks.len() ==> #[trigger] named_kind_models(ks)[i] == (ks[i].0@, ks[i].1@),
    decreases ks.len(),
{
    if ks.len() > 0 {
        lemma_named_kind_models(ks.drop_last());
    }
}

/// The models of a list of types, read by index.
pub proof fn lemma_type_models(ts: Seq<CanonicalType>)
    ensures
        type_models(ts).len() == ts.len(),
        forall|i: int| 0 <= i < ts.len() ==> #[trigger] type_models(ts)[i] == ts[i]@,
    decreases ts.len(),
{
    if ts.len() > 0 {
        lemma_type_models(ts.drop_last());
    }
}

/// The models of a list of named fields, read by index; they are the list keyed by view.
pub proof fn lemma_meta_models(fs: Seq<(String, FieldMeta)>)
    ensures
        meta_models(fs).len() == fs.len(),
        forall|i: int| 0 <= i < fs.len() ==> #[trigger] meta_models(fs)[i] == (fs[i].0@, fs[i].1@),
        meta_models(fs) == keyed(fs),
    decreases fs.len(),
{
    if fs.len() > 0 {
        lemma_meta_models(fs.drop_last());
    }
    assert(meta_models(fs) =~= keyed(fs));
}

/// The views of field statements.
pub open spec fn statements(v: Seq<FieldStatement>) -> Seq<StatementModel> {
    Seq::new(v.len(), |i: int| v[i]@)
}

/// The value of a literal; the empty text for any other type.
pub open spec fn literal_value(t: TypeModel) -> Seq<char> {
    match t {
        TypeModel::TextLiteral { value } => value,
        TypeModel::NumberLiteral { value } => value,
        _ => Seq::empty(),
    }
}

/// The union of the types `ts`: an enumeration of texts where all of them
/// are text literals, of numbers where all of them are number literals, and
/// a plain union otherwise.
pub open spec fn union_of(ts: Seq<TypeModel>) -> TypeModel {
    if forall|i: int| 0 <= i < ts.len() ==> (#[trigger] ts[i]) is TextLiteral {
        TypeModel::TextEnum { variants: Seq::new(ts.len(), |i: int| literal_value(ts[i])) }
    } else if forall|i: int| 0 <= i < ts.len() ==> (#[trigger] ts[i]) is NumberLiteral {
        TypeModel::NumberEnum { variants: Seq::new(ts.len(), |i: int| literal_value(ts[i])) }
    } else {
        TypeModel::Union { variants: ts }
    }
}

/// A resolved type, and the position of the first statement that was not
/// consumed for it.
pub struct Resolved {
    pub ty: TypeModel,
    pub next: int,
}

/// Resolved types, and the position of the first statement that was not
/// consumed for them.
pub struct ResolvedList {
    pub types: Seq<TypeModel>,
    pub next: int,
}

/// Where the run of statements ends that starts at `pos`, does not reach
/// `hi`, and whose names begin with `prefix`.
pub open spec fn run_end(fields: Seq<StatementModel>, pos: int, hi: int, prefix: Seq<char>) -> int
    decreases hi - pos,
{
    if 0 <= pos < hi && pos < fields.len() && prefix.is_prefix_of(fields[pos].name) {
        run_end(fields, pos + 1, hi, prefix)
    } else {
        pos
    }
}

/// The path of the fields of the object at `path`, up to their names.
pub open spec fn below(path: Seq<char>) -> Seq<char> {
    path + seq!['.']
}

/// The path at which the items of the array at `path` are declared.
pub open spec fn items_of(path: Seq<char>) -> Seq<char> {
    path + seq!['[', '*', ']']
}

/// The canonical type of the kind `kind`, declared at `path`, where the
/// statements from `pos` up to `hi` follow the declaration.
///
/// Plain kinds resolve by name; decimals, durations and identifiers keep a
/// type of their own only where `dedicated`. An object takes the run of
/// statements below its path as its fields, and has no declared shape
/// where there is none. An array or set takes the kind of the statement
/// that declares its items, if that is the next one, and the kind of its
/// own declaration otherwise. The alternatives of a union, and the items of
/// a tuple, are resolved one after the other, each on what the one before
/// left of the statements. The entries of an object literal are resolved
/// without statements.
pub open spec fn resolved(
    fields: Seq<StatementModel>,
    pos: int,
    hi: int,
    path: Seq<char>,
    kind: KindModel,
    dedicated: bool,
) -> Result<Resolved, UnsupportedModel>
    decreases hi - pos + 1, 0int, kind, 1int,
{
    match kind {
        KindModel::Any => Ok(Resolved { ty: TypeModel::Any, next: pos }),
        KindModel::Null => Ok(Resolved { ty: TypeModel::Null, next: pos }),
        KindModel::Bool => Ok(Resolved { ty: TypeModel::Boolean, next: pos }),
        KindModel::Bytes => Ok(Resolved { ty: TypeModel::Bytes, next: pos }),
        KindModel::Datetime => Ok(Resolved { ty: TypeModel::Date, next: pos }),
        KindModel::Decimal => Ok(
            Resolved {
                ty: if dedicated {
                    TypeModel::Decimal
                } else {
                    TypeModel::Number
                },
                next: pos,
            },
        ),
        KindModel::Duration => Ok(
            Resolved {
                ty: if dedicated {
                    TypeModel::Duration
                } else {
                    TypeModel::Text
                },
                next: pos,
            },
        ),
        KindModel::Uuid => Ok(
            Resolved {
                ty: if dedicated {
                    TypeModel::Uuid
                } else {
                    TypeModel::Text
                },
                next: pos,
            },
        ),
        KindModel::Float => Ok(Resolved { ty: TypeModel::Number, next: pos }),
        KindModel::Int => Ok(Resolved { ty: TypeModel::Number, next: pos }),
        KindModel::Number => Ok(Resolved { ty: TypeModel::Number, next: pos }),
        KindModel::Text => Ok(Resolved { ty: TypeModel::Text, next: pos }),
        KindModel::Record(tables) => Ok(Resolved { ty: TypeModel::Record { tables }, next: pos }),
        KindModel::TextLiteral(value) => Ok(
            Resolved { ty: TypeModel::TextLiteral { value }, next: pos },
        ),
        KindModel::NumberLiteral(value) => Ok(
            Resolved { ty: TypeModel::NumberLiteral { value }, next: pos },
        ),
        KindModel::Unsupported(description) => Err(UnsupportedModel { path, description }),
        KindModel::Optional(inner) => match resolved(fields, pos, hi, path, *inner, dedicated) {
            Ok(r) => Ok(Resolved { ty: TypeModel::Optional { inner: Box::new(r.ty) }, next: r.next }),
            Err(e) => Err(e),
        },
        KindModel::Object => {
            let end = run_end(fields, pos, hi, below(path));
            if pos < end <= hi {
                match fields_resolved(
                    fields,
                    pos,
                    end,
                    below(path).len(),
                    dedicated,
                    Seq::empty(),
                ) {
                    Ok(fs) => Ok(Resolved { ty: TypeModel::Object { fields: Some(fs) }, next: end }),
                    Err(e) => Err(e),
                }
            } else {
                Ok(Resolved { ty: TypeModel::Object { fields: None }, next: pos })
            }
        },
        KindModel::Either(kinds) => match each_resolved(
            fields,
            pos,
            hi,
            path,
            kinds,
            dedicated,
            Seq::empty(),
        ) {
            Ok(l) => Ok(Resolved { ty: union_of(l.types), next: l.next }),
            Err(e) => Err(e),
        },
        KindModel::TupleLiteral(kinds) => match each_resolved(
            fields,
            pos,
            hi,
            path,
            kinds,
            dedicated,
            Seq::empty(),
        ) {
            Ok(l) => Ok(Resolved { ty: TypeModel::Tuple { items: l.types }, next: l.next }),
            Err(e) => Err(e),
        },
        KindModel::SetOf(_) => items_resolved(fields, pos, hi, path, kind, dedicated),
        KindModel::ArrayOf(_) => items_resolved(fields, pos, hi, path, kind, dedicated),
        KindModel::ObjectLiteral(entries) => match entries_resolved(
            fields,
            pos,
            hi,
            path,
            entries,
            dedicated,
            Seq::empty(),
        ) {
            Ok(fs) => Ok(Resolved { ty: TypeModel::Object { fields: Some(fs) }, next: pos }),
            Err(e) => Err(e),
        },
    }
}

/// The array of what the items of the array or set kind `kind` at `path`
/// are: of the kind that the next statement declares where it declares the
/// items, of the kind inside `kind` otherwise.
pub open spec fn items_resolved(
    fields: Seq<StatementModel>,
    pos: int,
    hi: int,
    path: Seq<char>,
    kind: KindModel,
    dedicated: bool,
) -> Result<Resolved, UnsupportedModel>
    decreases hi - pos + 1, 0int, kind, 0int,
{
    let item = if 0 <= pos < hi && pos < fields.len() && fields[pos].name == items_of(path) {
        match fields[pos].kind {
            Some(k) => resolved(fields, pos + 1, hi, fields[pos].name, k, dedicated),
            None => Ok(Resolved { ty: TypeModel::Any, next: pos + 1 }),
        }
    } else {
        match kind {
            KindModel::SetOf(inner) => resolved(fields, pos, hi, path, *inner, dedicated),
            KindModel::ArrayOf(inner) => resolved(fields, pos, hi, path, *inner, dedicated),
            _ => Ok(Resolved { ty: TypeModel::Any, next: pos }),
        }
    };
    match item {
        Ok(r) => Ok(Resolved { ty: TypeModel::Array { item: Box::new(r.ty) }, next: r.next }),
        Err(e) => Err(e),
    }
}

/// The types of `kinds` behind the types `acc`, each resolved on the
/// statements that the one before it left.
pub open spec fn each_resolved(
    fields: Seq<StatementModel>,
    pos: int,
    hi: int,
    path: Seq<char>,
    kinds: Seq<KindModel>,
    dedicated: bool,
    acc: Seq<TypeModel>,
) -> Result<ResolvedList, UnsupportedModel>
    decreases hi - pos + 1, 0int, kinds, 0int,
{
    if kinds.len() == 0 {
        Ok(ResolvedList { types: acc, next: pos })
    } else {
        match resolved(fields, pos, hi, path, kinds[0], dedicated) {
            Err(e) => Err(e),
            Ok(r) => if pos <= r.next <= hi {
                each_resolved(
                    fields,
                    r.next,
                    hi,
                    path,
                    kinds.drop_first(),
                    dedicated,
                    acc.push(r.ty),
                )
            } else {
                Ok(ResolvedList { types: acc.push(r.ty), next: r.next })
            },
        }
    }
}

/// The fields of an object literal at `path`, added to `acc`: each entry
/// resolved below the path, without statements, default or comment.
pub open spec fn entries_resolved(
    fields: Seq<StatementModel>,
    pos: int,
    hi: int,
    path: Seq<char>,
    entries: Seq<(Seq<char>, KindModel)>,
    dedicated: bool,
    acc: Seq<(Seq<char>, MetaModel)>,
) -> Result<Seq<(Seq<char>, MetaModel)>, UnsupportedModel>
    decreases hi - pos + 1, 0int, entries, 0int,
{
    if entries.len() == 0 || pos > hi {
        Ok(acc)
    } else {
        match resolved(fields, hi, hi, below(path) + entries[0].0, entries[0].1, dedicated) {
            Err(e) => Err(e),
            Ok(r) => entries_resolved(
                fields,
                pos,
                hi,
                path,
                entries.drop_first(),
                dedicated,
                put(acc, entries[0].0, MetaModel { ty: r.ty, has_default: false, comment: None }),
            ),
        }
    }
}

/// The fields that the statements from `lo` up to `hi` declare, added to
/// `acc`: each under its name, which is its path behind the first
/// `prefix_len` characters, with the type of its kind, or any type where it
/// declares no kind.
pub open spec fn fields_resolved(
    fields: Seq<StatementModel>,
    lo: int,
    hi: int,
    prefix_len: nat,
    dedicated: bool,
    acc: Seq<(Seq<char>, MetaModel)>,
) -> Result<Seq<(Seq<char>, MetaModel)>, UnsupportedModel>
    decreases hi - lo, 1int,
{
    if lo >= hi || lo < 0 || lo >= fields.len() {
        Ok(acc)
    } else {
        let f = fields[lo];
        let r = match f.kind {
            Some(k) => resolved(fields, lo + 1, hi, f.name, k, dedicated),
            None => Ok(Resolved { ty: TypeModel::Any, next: lo + 1 }),
        };
        match r {
            Err(e) => Err(e),
            Ok(r) => if lo < r.next <= hi {
                fields_resolved(
                    fields,
                    r.next,
                    hi,
                    prefix_len,
                    dedicated,
                    put(
                        acc,
                        f.name.skip(prefix_len as int),
                        MetaModel { ty: r.ty, has_default: f.has_default, comment: f.comment },
                    ),
                )
            } else {
                Ok(acc)
            },
        }
    }
}

/// Enumerations collapse: a union of text literals alone is the
/// enumeration of their texts, a union of number literals alone, of which
/// there is at least one, is the enumeration of their numbers, and a union
/// that holds both something that is no text literal and something that is
/// no number literal stays a union of its alternatives.
pub proof fn lemma_enum_collapse(ts: Seq<TypeModel>)
    ensures
        (forall|i: int| 0 <= i < ts.len() ==> (#[trigger] ts[i]) is TextLiteral) ==> union_of(ts)
            == (TypeModel::TextEnum {
            variants: Seq::new(ts.len(), |i: int| literal_value(ts[i])),
        }),
        ts.len() > 0 && (forall|i: int| 0 <= i < ts.len() ==> (#[trigger] ts[i]) is NumberLiteral)
            ==> union_of(ts) == (TypeModel::NumberEnum {
            variants: Seq::new(ts.len(), |i: int| literal_value(ts[i])),
        }),
        (exists|i: int| 0 <= i < ts.len() && !((#[trigger] ts[i]) is TextLiteral)) && (exists|
            j: int,
        |
            0 <= j < ts.len() && !((#[trigger] ts[j]) is NumberLiteral)) ==> union_of(ts) == (
        TypeModel::Union { variants: ts }),
{
    if ts.len() > 0 && (forall|i: int| 0 <= i < ts.len() ==> (#[trigger] ts[i]) is NumberLiteral) {
        assert(!(ts[0] is TextLiteral));
    }
}

/// An object is opaque exactly where no statement below its path follows
/// its declaration: it then has no declared shape and consumes nothing.
/// Where such a statement follows, the object has a declared shape, unless
/// one of its fields cannot be resolved, and consumes at least that
/// statement.
pub proof fn lemma_object_shape(
    fields: Seq<StatementModel>,
    pos: int,
    hi: int,
    path: Seq<char>,
    dedicated: bool,
)
    requires
        0 <= pos <= hi <= fields.len(),
    ensures
        pos == hi || !below(path).is_prefix_of(fields[pos].name) ==> resolved(
            fields,
            pos,
            hi,
            path,
            KindModel::Object,
            dedicated,
        ) == Ok::<Resolved, UnsupportedModel>(
            Resolved { ty: TypeModel::Object { fields: None }, next: pos },
        ),
        pos < hi && below(path).is_prefix_of(fields[pos].name) ==> (resolved(
            fields,
            pos,
            hi,
            path,
            KindModel::Object,
            dedicated,
        ) matches Ok(r) ==> r.ty matches TypeModel::Object { fields: Some(_) } && pos < r.next <= hi),
{
    lemma_run_end_bounds(fields, pos, hi, below(path));
}

/// A run ends between its start and the limit, and behind its start where
/// the first statement belongs to it.
pub proof fn lemma_run_end_bounds(fields: Seq<StatementModel>, pos: int, hi: int, prefix: Seq<char>)
    requires
        0 <= pos <= hi <= fields.len(),
    ensures
        pos <= run_end(fields, pos, hi, prefix) <= hi,
        pos < hi && prefix.is_prefix_of(fields[pos].name) ==> pos < run_end(fields, pos, hi, prefix),
    decreases hi - pos,
{
    if pos < hi && prefix.is_prefix_of(fields[pos].name) {
        lemma_run_end_bounds(fields, pos + 1, hi, prefix);
    }
}

/// A field put among well-formed fields leaves them well-formed, where its
/// type is.
pub proof fn lemma_put_fields_wf(fs: Seq<(Seq<char>, MetaModel)>, name: Seq<char>, meta: MetaModel)
    requires
        fields_wf(fs),
        meta.ty.wf(),
    ensures
        fields_wf(put(fs, name, meta)),
{
    let out = put(fs, name, meta);
    lemma_index_of(fs, name);
    lemma_rank(fs, name);
    lemma_put_ascending(fs, name, meta);
    assert forall|j: int| 0 <= j < out.len() implies (#[trigger] out[j]).1.ty.wf() by {
        match index_of(fs, name) {
            Some(i) => {
                if j != i {
                    assert(out[j] == fs[j]);
                }
            },
            None => {
                let r = rank(fs, name);
                if j < r {
                    assert(out[j] == fs[j]);
                } else if j > r {
                    assert(out[j] == fs[j - 1]);
                }
            },
        }
    }
}

/// Whatever a kind resolves to is well-formed: the fields of every object
/// in it, at any depth, are in the order of their names.
pub proof fn lemma_resolved_wf(
    fields: Seq<StatementModel>,
    pos: int,
    hi: int,
    path: Seq<char>,
    kind: KindModel,
    dedicated: bool,
)
    ensures
        resolved(fields, pos, hi, path, kind, dedicated) matches Ok(r) ==> r.ty.wf(),
    decreases hi - pos + 1, 0int, kind, 1int,
{
    match kind {
        KindModel::Optional(inner) => {
            lemma_resolved_wf(fields, pos, hi, path, *inner, dedicated);
        },
        KindModel::Object => {
            let end = run_end(fields, pos, hi, below(path));
            if pos < end <= hi {
                lemma_fields_resolved_wf(
                    fields,
                    pos,
                    end,
                    below(path).len(),
                    dedicated,
                    Seq::empty(),
                );
            }
        },
        KindModel::Either(kinds) => {
            lemma_each_resolved_wf(fields, pos, hi, path, kinds, dedicated, Seq::empty());
        },
        KindModel::TupleLiteral(kinds) => {
            lemma_each_resolved_wf(fields, pos, hi, path, kinds, dedicated, Seq::empty());
        },
        KindModel::SetOf(_) => {
            lemma_items_resolved_wf(fields, pos, hi, path, kind, dedicated);
        },
        KindModel::ArrayOf(_) => {
            lemma_items_resolved_wf(fields, pos, hi, path, kind, dedicated);
        },
        KindModel::ObjectLiteral(entries) => {
            lemma_entries_resolved_wf(fields, pos, hi, path, entries, dedicated, Seq::empty());
        },
        _ => {},
    }
}

/// The array that an array or set kind resolves to is well-formed.
pub proof fn lemma_items_resolved_wf(
    fields: Seq<StatementModel>,
    pos: int,
    hi: int,
    path: Seq<char>,
    kind: KindModel,
    dedicated: bool,
)
    ensures
        items_resolved(fields, pos, hi, path, kind, dedicated) matches Ok(r) ==> r.ty.wf(),
    decreases hi - pos + 1, 0int, kind, 0int,
{
    let item = if 0 <= pos < hi && pos < fields.len() && fields[pos].name == items_of(path) {
        match fields[pos].kind {
            Some(k) => {
                lemma_resolved_wf(fields, pos + 1, hi, fields[pos].name, k, dedicated);
                resolved(fields, pos + 1, hi, fields[pos].name, k, dedicated)
            },
            None => Ok(Resolved { ty: TypeModel::Any, next: pos + 1 }),
        }
    } else {
        match kind {
            KindModel::SetOf(inner) => {
                lemma_resolved_wf(fields, pos, hi, path, *inner, dedicated);
                resolved(fields, pos, hi, path, *inner, dedicated)
            },
            KindModel::ArrayOf(inner) => {
                lemma_resolved_wf(fields, pos, hi, path, *inner, dedicated);
                resolved(fields, pos, hi, path, *inner, dedicated)
            },
            _ => Ok(Resolved { ty: TypeModel::Any, next: pos }),
        }
    };
    if let Ok(r) = item {
        assert(r.ty.wf());
        assert((TypeModel::Array { item: Box::new(r.ty) }).wf());
    }
}

/// The types that kinds resolve to are well-formed, where those that they
/// are added to are.
pub proof fn lemma_each_resolved_wf(
    fields: Seq<StatementModel>,
    pos: int,
    hi: int,
    path: Seq<char>,
    kinds: Seq<KindModel>,
    dedicated: bool,
    acc: Seq<TypeModel>,
)
    requires
        types_wf(acc),
    ensures
        each_resolved(fields, pos, hi, path, kinds, dedicated, acc) matches Ok(l) ==> types_wf(
            l.types,
        ) && union_of(l.types).wf(),
    decreases hi - pos + 1, 0int, kinds, 0int,
{
    if kinds.len() > 0 {
        lemma_resolved_wf(fields, pos, hi, path, kinds[0], dedicated);
        match resolved(fields, pos, hi, path, kinds[0], dedicated) {
            Ok(r) => {
                if pos <= r.next <= hi {
                    lemma_each_resolved_wf(
                        fields,
                        r.next,
                        hi,
                        path,
                        kinds.drop_first(),
                        dedicated,
                        acc.push(r.ty),
                    );
                }
            },
            Err(_) => {},
        }
    }
}

/// The fields that the entries of an object literal resolve to are
/// well-formed, where those that they are added to are.
pub proof fn lemma_entries_resolved_wf(
    fields: Seq<StatementModel>,
    pos: int,
    hi: int,
    path: Seq<char>,
    entries: Seq<(Seq<char>, KindModel)>,
    dedicated: bool,
    acc: Seq<(Seq<char>, MetaModel)>,
)
    requires
        fields_wf(acc),
    ensures
        entries_resolved(fields, pos, hi, path, entries, dedicated, acc) matches Ok(fs)
            ==> fields_wf(fs),
    decreases hi - pos + 1, 0int, entries, 0int,
{
    if !(entries.len() == 0 || pos > hi) {
        lemma_resolved_wf(fields, hi, hi, below(path) + entries[0].0, entries[0].1, dedicated);
        match resolved(fields, hi, hi, below(path) + entries[0].0, entries[0].1, dedicated) {
            Ok(r) => {
                let meta = MetaModel { ty: r.ty, has_default: false, comment: None };
                lemma_put_fields_wf(acc, entries[0].0, meta);
                lemma_entries_resolved_wf(
                    fields,
                    pos,
                    hi,
                    path,
                    entries.drop_first(),
                    dedicated,
                    put(acc, entries[0].0, meta),
                );
            },
            Err(_) => {},
        }
    }
}

/// The fields that statements declare are well-formed, where those that
/// they are added to are: in the order of their names, and so are the
/// fields of every object below them.
pub proof fn lemma_fields_resolved_wf(
    fields: Seq<StatementModel>,
    lo: int,
    hi: int,
    prefix_len: nat,
    dedicated: bool,
    acc: Seq<(Seq<char>, MetaModel)>,
)
    requires
        fields_wf(acc),
    ensures
        fields_resolved(fields, lo, hi, prefix_len, dedicated, acc) matches Ok(fs) ==> fields_wf(
            fs,
        ),
    decreases hi - lo, 1int,
{
    if !(lo >= hi || lo < 0 || lo >= fields.len()) {
        let f = fields[lo];
        match f.kind {
            Some(k) => {
                lemma_resolved_wf(fields, lo + 1, hi, f.name, k, dedicated);
            },
            None => {},
        }
        let r = match f.kind {
            Some(k) => resolved(fields, lo + 1, hi, f.name, k, dedicated),
            None => Ok(Resolved { ty: TypeModel::Any, next: lo + 1 }),
        };
        if r is Ok {
            let r = r->Ok_0;
            if lo < r.next <= hi {
                let meta = MetaModel { ty: r.ty, has_default: f.has_default, comment: f.comment };
                lemma_put_fields_wf(acc, f.name.skip(prefix_len as int), meta);
                lemma_fields_resolved_wf(
                    fields,
                    r.next,
                    hi,
                    prefix_len,
                    dedicated,
                    put(acc, f.name.skip(prefix_len as int), meta),
                );
            }
        }
    }
}

/// The text of a literal; the empty text for any other type.
fn value_of(t: &CanonicalType) -> (r: String)
    ensures
        r@ == literal_value(t@),
{
    match t {
        CanonicalType::TextLiteral { value } => value.clone(),
        CanonicalType::NumberLiteral { value } => value.clone(),
        _ => String::new(),
    }
}

/// The values of literals, in their order.
fn values_of(ts: &Vec<CanonicalType>) -> (r: Vec<String>)
    ensures
        texts(r@) == Seq::new(ts.len() as nat, |i: int| literal_value(type_models(ts@)[i])),
{
    let mut values: Vec<String> = Vec::new();
    let mut i: usize = 0;
    proof {
        lemma_type_models(ts@);
    }
    while i < ts.len()
        invariant
            i <= ts.len(),
            values.len() == i,
            type_models(ts@).len() == ts.len(),
            forall|j: int| 0 <= j < ts.len() ==> #[trigger] type_models(ts@)[j] == ts@[j]@,
            forall|j: int| 0 <= j < i ==> (#[trigger] values@[j])@ == literal_value(ts@[j]@),
        decreases ts.len() - i,
    {
        values.push(value_of(&ts[i]));
        i += 1;
    }
    assert(texts(values@) =~= Seq::new(
        ts.len() as nat,
        |i: int| literal_value(type_models(ts@)[i]),
    ));
    values
}

/// The union of the types `variants`: an enumeration where all of them are
/// text literals, or all of them number literals, a plain union otherwise.
pub fn get_union_variant(variants: Vec<CanonicalType>) -> (r: CanonicalType)
    ensures
        r@ == union_of(type_models(variants@)),
{
    proof {
        lemma_type_models(variants@);
    }
    let ghost models = type_models(variants@);
    let mut all_text = true;
    let mut all_number = true;
    let mut i: usize = 0;
    while i < variants.len()
        invariant
            i <= variants.len(),
            models.len() == variants.len(),
            forall|j: int| 0 <= j < variants.len() ==> #[trigger] models[j] == variants@[j]@,
            all_text == (forall|j: int| 0 <= j < i ==> (#[trigger] models[j]) is TextLiteral),
            all_number == (forall|j: int| 0 <= j < i ==> (#[trigger] models[j]) is NumberLiteral),
        decreases variants.len() - i,
    {
        match &variants[i] {
            CanonicalType::TextLiteral { .. } => {
                all_number = false;
            },
            CanonicalType::NumberLiteral { .. } => {
                all_text = false;
            },
            _ => {
                all_text = false;
                all_number = false;
            },
        }
        proof {
            if !all_text {
                assert(!(models[i as int] is TextLiteral) || exists|j: int|
                    0 <= j < i && !((#[trigger] models[j]) is TextLiteral));
            }
            if !all_number {
                assert(!(models[i as int] is NumberLiteral) || exists|j: int|
                    0 <= j < i && !((#[trigger] models[j]) is NumberLiteral));
            }
        }
        i += 1;
    }
    if all_text {
        CanonicalType::TextEnum { variants: values_of(&variants) }
    } else if all_number {
        CanonicalType::NumberEnum { variants: values_of(&variants) }
    } else {
        CanonicalType::Union { variants }
    }
}

/// The outcome `r` is the outcome `m`, and leaves statements between `pos`
/// and `hi`.
pub open spec fn is_resolved(
    r: Result<(CanonicalType, usize), UnsupportedKind>,
    m: Result<Resolved, UnsupportedModel>,
    pos: usize,
    hi: usize,
) -> bool {
    match m {
        Ok(x) => r matches Ok((ty, next)) && ty@ == x.ty && next == x.next && pos <= next <= hi,
        Err(e) => r matches Err(u) && u@ == e,
    }
}

/// The outcome `r` is the outcome `m`.
pub open spec fn are_fields(
    r: Result<Vec<(String, FieldMeta)>, UnsupportedKind>,
    m: Result<Seq<(Seq<char>, MetaModel)>, UnsupportedModel>,
) -> bool {
    match m {
        Ok(x) => r matches Ok(fs) && meta_models(fs@) == x,
        Err(e) => r matches Err(u) && u@ == e,
    }
}

/// A position that ends a run of names with one prefix is the one `run_end` gives.
proof fn lemma_run_end_exact(fields: Seq<StatementModel>, pos: int, end: int, hi: int, prefix: Seq<char>)
    requires
        0 <= pos <= end <= hi <= fields.len(),
        forall|j: int| pos <= j < end ==> prefix.is_prefix_of((#[trigger] fields[j]).name),
        end < hi ==> !prefix.is_prefix_of(fields[end].name),
    ensures
        run_end(fields, pos, hi, prefix) == end,
    decreases end - pos,
{
    if pos < end {
        lemma_run_end_exact(fields, pos + 1, end, hi, prefix);
    }
}

/// Resolves the kind `kind`, declared at `path`, on the statements from
/// `pos` up to `hi`.
fn resolve(
    fields: &Vec<FieldStatement>,
    pos: usize,
    hi: usize,
    path: &str,
    kind: &DeclaredKind,
    dedicated: bool,
) -> (r: Result<(CanonicalType, usize), UnsupportedKind>)
    requires
        pos <= hi <= fields.len(),
    ensures
        is_resolved(r, resolved(statements(fields@), pos as int, hi as int, path@, kind@, dedicated), pos, hi),
    decreases hi - pos + 1, 0int, kind, 1int,
{
    match kind {
        DeclaredKind::Any => Ok((CanonicalType::Any, pos)),
        DeclaredKind::Null => Ok((CanonicalType::Null, pos)),
        DeclaredKind::Bool => Ok((CanonicalType::Boolean, pos)),
        DeclaredKind::Bytes => Ok((CanonicalType::Bytes, pos)),
        DeclaredKind::Datetime => Ok((CanonicalType::Date, pos)),
        DeclaredKind::Decimal => Ok(
            (
                if dedicated {
                    CanonicalType::Decimal
                } else {
                    CanonicalType::Number
                },
                pos,
            ),
        ),
        DeclaredKind::Duration => Ok(
            (
                if dedicated {
                    CanonicalType::Duration
                } else {
                    CanonicalType::Text
                },
                pos,
            ),
        ),
        DeclaredKind::Uuid => Ok(
            (
                if dedicated {
                    CanonicalType::Uuid
                } else {
                    CanonicalType::Text
                },
                pos,
            ),
        ),
        DeclaredKind::Float => Ok((CanonicalType::Number, pos)),
        DeclaredKind::Int => Ok((CanonicalType::Number, pos)),
        DeclaredKind::Number => Ok((CanonicalType::Number, pos)),
        DeclaredKind::Text => Ok((CanonicalType::Text, pos)),
        DeclaredKind::Record(tables) => Ok(
            (CanonicalType::Record { tables: clone_texts(tables) }, pos),
        ),
        DeclaredKind::TextLiteral(value) => Ok(
            (CanonicalType::TextLiteral { value: value.clone() }, pos),
        ),
        DeclaredKind::NumberLiteral(value) => Ok(
            (CanonicalType::NumberLiteral { value: value.clone() }, pos),
        ),
        DeclaredKind::Unsupported(description) => Err(
            UnsupportedKind { path: path.to_owned(), description: description.clone() },
        ),
        DeclaredKind::Optional(inner) => match resolve(fields, pos, hi, path, inner, dedicated) {
            Ok((ty, next)) => Ok((CanonicalType::Optional { inner: Box::new(ty) }, next)),
            Err(e) => Err(e),
        },
        DeclaredKind::Object => {
            let prefix = followed_by(path, ".");
            proof {
                reveal_strlit(".");
                assert(prefix@ =~= below(path@));
            }
            let mut end: usize = pos;
            while end < hi && begins_with(fields[end].name.as_str(), prefix.as_str())
                invariant
                    pos <= end <= hi <= fields.len(),
                    prefix@.len() > 0,
                    forall|j: int|
                        pos <= j < end ==> prefix@.is_prefix_of(
                            (#[trigger] statements(fields@)[j]).name,
                        ),
                decreases hi - end,
            {
                end += 1;
            }
            proof {
                lemma_run_end_exact(
                    statements(fields@),
                    pos as int,
                    end as int,
                    hi as int,
                    prefix@,
                );
            }
            if end > pos {
                let known: Vec<(String, FieldMeta)> = Vec::new();
                proof {
                    lemma_meta_models(known@);
                }
                match resolve_fields(
                    fields,
                    pos,
                    end,
                    prefix.as_str().unicode_len(),
                    dedicated,
                    known,
                ) {
                    Ok(fs) => Ok((CanonicalType::Object { fields: Some(fs) }, end)),
                    Err(e) => Err(e),
                }
            } else {
                Ok((CanonicalType::Object { fields: None }, pos))
            }
        },
        DeclaredKind::Either(kinds) => {
            proof {
                lemma_type_models(Seq::<CanonicalType>::empty());
            }
            match resolve_each(fields, pos, hi, path, kinds, dedicated) {
                Ok((types, next)) => Ok((get_union_variant(types), next)),
                Err(e) => Err(e),
            }
        },
        DeclaredKind::TupleLiteral(kinds) => match resolve_each(
            fields,
            pos,
            hi,
            path,
            kinds,
            dedicated,
        ) {
            Ok((types, next)) => Ok((CanonicalType::Tuple { items: types }, next)),
            Err(e) => Err(e),
        },
        DeclaredKind::SetOf(_) => resolve_items(fields, pos, hi, path, kind, dedicated),
        DeclaredKind::ArrayOf(_) => resolve_items(fields, pos, hi, path, kind, dedicated),
        DeclaredKind::ObjectLiteral(entries) => match resolve_entries(
            fields,
            pos,
            hi,
            path,
            entries,
            dedicated,
        ) {
            Ok(fs) => Ok((CanonicalType::Object { fields: Some(fs) }, pos)),
            Err(e) => Err(e),
        },
    }
}

/// Resolves the items of the array or set kind `kind`.
fn resolve_items(
    fields: &Vec<FieldStatement>,
    pos: usize,
    hi: usize,
    path: &str,
    kind: &DeclaredKind,
    dedicated: bool,
) -> (r: Result<(CanonicalType, usize), UnsupportedKind>)
    requires
        pos <= hi <= fields.len(),
        kind is SetOf || kind is ArrayOf,
    ensures
        is_resolved(
            r,
            items_resolved(statements(fields@), pos as int, hi as int, path@, kind@, dedicated),
            pos,
            hi,
        ),
    decreases hi - pos + 1, 0int, kind, 0int,
{
    let declared = followed_by(path, "[*]");
    proof {
        reveal_strlit("[*]");
        assert(declared@ =~= items_of(path@));
    }
    let item = if pos < hi && same_text(fields[pos].name.as_str(), declared.as_str()) {
        match &fields[pos].kind {
            Some(k) => resolve(fields, pos + 1, hi, fields[pos].name.as_str(), k, dedicated),
            None => Ok((CanonicalType::Any, pos + 1)),
        }
    } else {
        match kind {
            DeclaredKind::SetOf(inner) => resolve(fields, pos, hi, path, inner, dedicated),
            DeclaredKind::ArrayOf(inner) => resolve(fields, pos, hi, path, inner, dedicated),
            _ => Ok((CanonicalType::Any, pos)),
        }
    };
    match item {
        Ok((ty, next)) => Ok((CanonicalType::Array { item: Box::new(ty) }, next)),
        Err(e) => Err(e),
    }
}

/// Resolves the kinds one after the other.
fn resolve_each(
    fields: &Vec<FieldStatement>,
    pos: usize,
    hi: usize,
    path: &str,
    kinds: &Vec<DeclaredKind>,
    dedicated: bool,
) -> (r: Result<(Vec<CanonicalType>, usize), UnsupportedKind>)
    requires
        pos <= hi <= fields.len(),
    ensures
        match each_resolved(
            statements(fields@),
            pos as int,
            hi as int,
            path@,
            kind_models(kinds@),
            dedicated,
            Seq::empty(),
        ) {
            Ok(l) => r matches Ok((types, next)) && type_models(types@) == l.types && next
                == l.next && pos <= next <= hi,
            Err(e) => r matches Err(u) && u@ == e,
        },
    decreases hi - pos + 1, 0int, kinds, 0int,
{
    let mut types: Vec<CanonicalType> = Vec::new();
    let mut at: usize = pos;
    let mut k: usize = 0;
    let ghost all = kind_models(kinds@);
    proof {
        lemma_kind_models(kinds@);
        lemma_type_models(types@);
        assert(all.skip(0) =~= all);
    }
    while k < kinds.len()
        invariant
            k <= kinds.len(),
            pos <= at <= hi <= fields.len(),
            all == kind_models(kinds@),
            all.len() == kinds.len(),
            forall|j: int| 0 <= j < kinds.len() ==> #[trigger] all[j] == kinds@[j]@,
            each_resolved(
                statements(fields@),
                pos as int,
                hi as int,
                path@,
                all,
                dedicated,
                Seq::empty(),
            ) == each_resolved(
                statements(fields@),
                at as int,
                hi as int,
                path@,
                all.skip(k as int),
                dedicated,
                type_models(types@),
            ),
        decreases kinds.len() - k,
    {
        let ghost rest = all.skip(k as int);
        let ghost before = types@;
        proof {
            assert(rest[0] == kinds@[k as int]@);
            assert(rest.drop_first() =~= all.skip(k + 1));
            assert(decreases_to!(kinds => kinds@));
            assert(decreases_to!(kinds@ => kinds@[k as int]));
        }
        match resolve(fields, at, hi, path, &kinds[k], dedicated) {
            Err(e) => {
                return Err(e);
            },
            Ok((ty, next)) => {
                types.push(ty);
                at = next;
            },
        }
        proof {
            lemma_type_models(before);
            lemma_type_models(types@);
            assert(type_models(types@) =~= type_models(before).push(types@.last()@));
        }
        k += 1;
    }
    Ok((types, at))
}

/// Resolves the entries of an object literal at `path`.
fn resolve_entries(
    fields: &Vec<FieldStatement>,
    pos: usize,
    hi: usize,
    path: &str,
    entries: &Vec<(String, DeclaredKind)>,
    dedicated: bool,
) -> (r: Result<Vec<(String, FieldMeta)>, UnsupportedKind>)
    requires
        pos <= hi <= fields.len(),
    ensures
        are_fields(
            r,
            entries_resolved(
                statements(fields@),
                pos as int,
                hi as int,
                path@,
                named_kind_models(entries@),
                dedicated,
                Seq::empty(),
            ),
        ),
    decreases hi - pos + 1, 0int, entries, 0int,
{
    let mut known: Vec<(String, FieldMeta)> = Vec::new();
    let prefix = followed_by(path, ".");
    let mut k: usize = 0;
    let ghost all = named_kind_models(entries@);
    proof {
        reveal_strlit(".");
        assert(prefix@ =~= below(path@));
        lemma_named_kind_models(entries@);
        lemma_meta_models(known@);
        assert(all.skip(0) =~= all);
    }
    while k < entries.len()
        invariant
            k <= entries.len(),
            pos <= hi <= fields.len(),
            prefix@ == below(path@),
            all == named_kind_models(entries@),
            all.len() == entries.len(),
            forall|j: int|
                0 <= j < entries.len() ==> #[trigger] all[j] == (entries@[j].0@, entries@[j].1@),
            entries_resolved(
                statements(fields@),
                pos as int,
                hi as int,
                path@,
                all,
                dedicated,
                Seq::empty(),
            ) == entries_resolved(
                statements(fields@),
                pos as int,
                hi as int,
                path@,
                all.skip(k as int),
                dedicated,
                meta_models(known@),
            ),
        decreases entries.len() - k,
    {
        let ghost rest = all.skip(k as int);
        let ghost before = known@;
        proof {
            assert(rest[0] == (entries@[k as int].0@, entries@[k as int].1@));
            assert(rest.drop_first() =~= all.skip(k + 1));
            assert(decreases_to!(entries => entries@));
            assert(decreases_to!(entries@ => entries@[k as int]));
            assert(decreases_to!(entries@[k as int] => entries@[k as int].1));
            lemma_meta_models(before);
        }
        let below_path = followed_by(prefix.as_str(), entries[k].0.as_str());
        match resolve(fields, hi, hi, below_path.as_str(), &entries[k].1, dedicated) {
            Err(e) => {
                return Err(e);
            },
            Ok((ty, _)) => {
                insert(
                    &mut known,
                    entries[k].0.clone(),
                    FieldMeta { ty, has_default: false, comment: None },
                );
            },
        }
        proof {
            lemma_meta_models(known@);
        }
        k += 1;
    }
    Ok(known)
}

/// Resolves the statements from `lo` up to `hi` as the fields of one
/// object, added to the fields `known`.
fn resolve_fields(
    fields: &Vec<FieldStatement>,
    lo: usize,
    hi: usize,
    prefix_len: usize,
    dedicated: bool,
    known: Vec<(String, FieldMeta)>,
) -> (r: Result<Vec<(String, FieldMeta)>, UnsupportedKind>)
    requires
        lo <= hi <= fields.len(),
        forall|j: int| lo <= j < hi ==> prefix_len <= (#[trigger] statements(fields@)[j]).name.len(),
    ensures
        are_fields(
            r,
            fields_resolved(
                statements(fields@),
                lo as int,
                hi as int,
                prefix_len as nat,
                dedicated,
                meta_models(known@),
            ),
        ),
    decreases hi - lo, 1int,
{
    let ghost given = meta_models(known@);
    let mut acc = known;
    let mut at: usize = lo;
    while at < hi
        invariant
            lo <= at <= hi <= fields.len(),
            given == meta_models(known@),
            forall|j: int|
                lo <= j < hi ==> prefix_len <= (#[trigger] statements(fields@)[j]).name.len(),
            fields_resolved(
                statements(fields@),
                lo as int,
                hi as int,
                prefix_len as nat,
                dedicated,
                given,
            ) == fields_resolved(
                statements(fields@),
                at as int,
                hi as int,
                prefix_len as nat,
                dedicated,
                meta_models(acc@),
            ),
        decreases hi - at,
    {
        let field = &fields[at];
        let ghost before = acc@;
        proof {
            assert(statements(fields@)[at as int] == field@);
            lemma_meta_models(before);
        }
        let resolved_kind = match &field.kind {
            Some(k) => resolve(fields, at + 1, hi, field.name.as_str(), k, dedicated),
            None => Ok((CanonicalType::Any, at + 1)),
        };
        match resolved_kind {
            Err(e) => {
                return Err(e);
            },
            Ok((ty, next)) => {
                let name_len = field.name.as_str().unicode_len();
                let name = field.name.as_str().substring_char(prefix_len, name_len).to_owned();
                let comment = match &field.comment {
                    Some(c) => Some(c.clone()),
                    None => None,
                };
                insert(&mut acc, name, FieldMeta { ty, has_default: field.has_default, comment });
                at = next;
            },
        }
        proof {
            lemma_meta_models(acc@);
        }
    }
    Ok(acc)
}

/// The fields that the statements of a table declare, by name. Decimals,
/// durations and identifiers resolve to types of their own where
/// `dedicated`, and to numbers and texts otherwise. Fails at the first
/// statement whose kind has no canonical type.
pub fn get_field_metas(fields: &Vec<FieldStatement>, dedicated: bool) -> (r: Result<
    Vec<(String, FieldMeta)>,
    UnsupportedKind,
>)
    ensures
        are_fields(
            r,
            fields_resolved(
                statements(fields@),
                0,
                fields.len() as int,
                0,
                dedicated,
                Seq::empty(),
            ),
        ),
        r matches Ok(fs) ==> fields_wf(meta_models(fs@)),
{
    let known: Vec<(String, FieldMeta)> = Vec::new();
    proof {
        lemma_meta_models(known@);
        lemma_fields_resolved_wf(
            statements(fields@),
            0,
            fields.len() as int,
            0,
            dedicated,
            Seq::empty(),
        );
    }
    resolve_fields(fields, 0, fields.len(), 0, dedicated, known)
}

/// The canonical type of the kind `kind`, declared at `path`, where the
/// statements from `pos` on follow the declaration; with it, the position
/// of the first statement that was not consumed. A field that declares no
/// kind is of any type.
pub fn get_field_type(
    path: &str,
    kind: &Option<DeclaredKind>,
    fields: &Vec<FieldStatement>,
    pos: usize,
    dedicated: bool,
) -> (r: Result<(CanonicalType, usize), UnsupportedKind>)
    requires
        pos <= fields.len(),
    ensures
        match kind {
            Some(k) => is_resolved(
                r,
                resolved(
                    statements(fields@),
                    pos as int,
                    fields.len() as int,
                    path@,
                    k@,
                    dedicated,
                ),
                pos,
                fields.len(),
            ),
            None => r matches Ok((ty, next)) && ty@ == TypeModel::Any && next == pos,
        },
        r matches Ok((ty, _)) ==> ty@.wf(),
{
    match kind {
        Some(k) => {
            proof {
                lemma_resolved_wf(
                    statements(fields@),
                    pos as int,
                    fields.len() as int,
                    path@,
                    k@,
                    dedicated,
                );
            }
            resolve(fields, pos, fields.len(), path, k, dedicated)
        },
        None => Ok((CanonicalType::Any, pos)),
    }
}

/// The table `name` with the fields that its statements declare.
pub fn table_meta(
    name: &str,
    comment: Option<String>,
    fields: &Vec<FieldStatement>,
    dedicated: bool,
) -> (r: Result<TableMeta, UnsupportedKind>)
    ensures
        match fields_resolved(
            statements(fields@),
            0,
            fields.len() as int,
            0,
            dedicated,
            Seq::empty(),
        ) {
            Ok(fs) => r matches Ok(t) && t@ == (TableModel {
                name: name@,
                fields: fs,
                comment: optional_text(comment),
            }),
            Err(e) => r matches Err(u) && u@ == e,
        },
        r matches Ok(t) ==> fields_wf(t@.fields),
{
    match get_field_metas(fields, dedicated) {
        Ok(fs) => Ok(TableMeta { name: name.to_owned(), fields: fs, comment }),
        Err(e) => Err(e),
    }
}

} // verus!
