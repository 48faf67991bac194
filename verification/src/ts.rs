//! Maps canonical types to TypeScript type expressions, for the shape that
//! is written to a table and for the shape that is read from it, and renders
//! the expressions as text.
use vstd::prelude::*;
use vstd::string::*;
use convert_case::{Case, Casing};
use crate::config::Config;
use crate::meta::{
    lemma_meta_models, lemma_type_models, meta_models, type_models, CanonicalType, FieldMeta,
    MetaModel, TableMeta, TypeModel,
};
use crate::text::{followed_by, texts};

verus! {

/// The shape that a type is mapped for.
#[derive(Debug, Clone, Copy, PartialEq, Eq, Structural)]
pub enum Direction {
    /// The shape of what is written to a table.
    In,
    /// The shape of what is read from a table.
    Out,
}

/// A type that TypeScript or the database client names.
#[derive(Debug, Clone, Copy, PartialEq, Eq, Structural)]
pub enum Keyword {
    Any,
    Null,
    Boolean,
    Number,
    Text,
    Date,
    ArrayBuffer,
    Decimal,
    Duration,
    Uuid,
    Object,
    Unknown,
    Undefined,
    RecordId,
}

/// A TypeScript type expression.
#[derive(Debug, PartialEq, Eq)]
pub enum TsType {
    Keyword(Keyword),
    TextLiteral(String),
    /// A number literal, as the decimal text of the number.
    NumberLiteral(String),
    /// One of the alternatives.
    Union(Vec<TsType>),
    Array(Box<TsType>),
    Tuple(Vec<TsType>),
    Object(Vec<Member>),
    /// The type of the rows of a table in one of its two shapes.
    Interface { table: String, direction: Direction },
    /// The type of the `id` of the rows of a table, where it is present.
    RequiredId { table: String, direction: Direction },
    /// The type of the `id` of the rows of a table.
    IdOf { table: String, direction: Direction },
    /// The type of the identifiers of the records of a table.
    RecordIdOf { table: String },
}

/// A member of an object type.
#[derive(Debug, PartialEq, Eq)]
pub struct Member {
    pub name: String,
    /// Whether the member may be left out.
    pub optional: bool,
    pub ty: TsType,
}

/// A type expression, as mathematics.
pub enum ExprModel {
    Keyword(Keyword),
    TextLiteral(Seq<char>),
    NumberLiteral(Seq<char>),
    Union(Seq<ExprModel>),
    Array(Box<ExprModel>),
    Tuple(Seq<ExprModel>),
    Object(Seq<MemberModel>),
    Interface { table: Seq<char>, direction: Direction },
    RequiredId { table: Seq<char>, direction: Direction },
    IdOf { table: Seq<char>, direction: Direction },
    RecordIdOf { table: Seq<char> },
}

/// A member of an object type, as mathematics.
pub struct MemberModel {
    pub name: Seq<char>,
    pub optional: bool,
    pub ty: ExprModel,
}

/// The views of type expressions.
pub open spec fn expr_models(es: Seq<TsType>) -> Seq<ExprModel>
    decreases es,
{
    if es.len() == 0 {
        Seq::empty()
    } else {
        expr_models(es.drop_last()).push(es.last().model())
    }
}

/// The views of members.
pub open spec fn member_models(ms: Seq<Member>) -> Seq<MemberModel>
    decreases ms,
{
    if ms.len() == 0 {
        Seq::empty()
    } else {
        member_models(ms.drop_last()).push(ms.last().model())
    }
}

impl TsType {
    /// The expression as mathematics.
    pub open spec fn model(&self) -> ExprModel
        decreases self,
    {
        match self {
            TsType::Keyword(k) => ExprModel::Keyword(*k),
            TsType::TextLiteral(v) => ExprModel::TextLiteral(v@),
            TsType::NumberLiteral(v) => ExprModel::NumberLiteral(v@),
            TsType::Union(es) => ExprModel::Union(expr_models(es@)),
            TsType::Array(e) => ExprModel::Array(Box::new(e.model())),
            TsType::Tuple(es) => ExprModel::Tuple(expr_models(es@)),
            TsType::Object(ms) => ExprModel::Object(member_models(ms@)),
            TsType::Interface { table, direction } => ExprModel::Interface {
                table: table@,
                direction: *direction,
            },
            TsType::RequiredId { table, direction } => ExprModel::RequiredId {
                table: table@,
                direction: *direction,
            },
            TsType::IdOf { table, direction } => ExprModel::IdOf {
                table: table@,
                direction: *direction,
            },
            TsType::RecordIdOf { table } => ExprModel::RecordIdOf { table: table@ },
        }
    }
}

impl Member {
    /// The member as mathematics.
    pub open spec fn model(&self) -> MemberModel
        decreases self,
    {
        MemberModel { name: self.name@, optional: self.optional, ty: self.ty.model() }
    }
}

impl View for TsType {
    type V = ExprModel;

    open spec fn view(&self) -> ExprModel {
        self.model()
    }
}

impl View for Member {
    type V = MemberModel;

    open spec fn view(&self) -> MemberModel {
        self.model()
    }
}

/// The models of a list of type expressions, read by index.
pub proof fn lemma_expr_models(es: Seq<TsType>)
    ensures
        expr_models(es).len() == es.len(),
        forall|i: int| 0 <= i < es.len() ==> #[trigger] expr_models(es)[i] == es[i]@,
    decreases es.len(),
{
    if es.len() > 0 {
        lemma_expr_models(es.drop_last());
    }
}

/// The models of a list of members, read by index.
pub proof fn lemma_member_models(ms: Seq<Member>)
    ensures
        member_models(ms).len() == ms.len(),
        forall|i: int| 0 <= i < ms.len() ==> #[trigger] member_models(ms)[i] == ms[i]@,
    decreases ms.len(),
{
    if ms.len() > 0 {
        lemma_member_models(ms.drop_last());
    }
}

/// The settings that the mapping depends on.
#[derive(Debug, Clone, Copy, PartialEq, Eq, Structural)]
pub struct Flags {
    /// Whether references to records are typed as the rows they lead to.
    pub links_fetched: bool,
    /// Whether the types of the database client are used.
    pub target_sdk: bool,
}

/// The type of an identifier of any record.
pub open spec fn any_record(flags: Flags) -> ExprModel {
    if flags.target_sdk {
        ExprModel::Keyword(Keyword::RecordId)
    } else {
        ExprModel::Keyword(Keyword::Text)
    }
}

/// The type of a reference to a row of `table`: to write, the identifier of
/// the row; to read, the row itself where links are fetched, and the row or
/// its identifier otherwise.
pub open spec fn reference(table: Seq<char>, direction: Direction, flags: Flags) -> ExprModel {
    match direction {
        Direction::In => ExprModel::RequiredId { table, direction },
        Direction::Out => if flags.links_fetched {
            ExprModel::Interface { table, direction }
        } else {
            ExprModel::Union(
                seq![
                    ExprModel::Interface { table, direction },
                    ExprModel::IdOf { table, direction },
                ],
            )
        },
    }
}

/// Whether a field may be left out: where it is optional by type, or is
/// written and has a default.
pub open spec fn may_be_left_out(meta: MetaModel, direction: Direction) -> bool {
    meta.ty is Optional || (direction is In && meta.has_default)
}

/// The types of `ts`, mapped one by one.
pub open spec fn mapped_each(ts: Seq<TypeModel>, direction: Direction, flags: Flags) -> Seq<
    ExprModel,
>
    decreases ts, 0int,
{
    if ts.len() == 0 {
        Seq::empty()
    } else {
        mapped_each(ts.drop_last(), direction, flags).push(mapped(ts.last(), direction, flags))
    }
}

/// The members for the fields `fs`, in their order.
pub open spec fn members(fs: Seq<(Seq<char>, MetaModel)>, direction: Direction, flags: Flags) -> Seq<
    MemberModel,
>
    decreases fs, 0int,
{
    if fs.len() == 0 {
        Seq::empty()
    } else {
        members(fs.drop_last(), direction, flags).push(
            MemberModel {
                name: fs.last().0,
                optional: may_be_left_out(fs.last().1, direction),
                ty: mapped(fs.last().1.ty, direction, flags),
            },
        )
    }
}

/// The type expression for the canonical type `t`.
pub open spec fn mapped(t: TypeModel, direction: Direction, flags: Flags) -> ExprModel
    decreases t, 1int,
{
    match t {
        TypeModel::Any => ExprModel::Keyword(Keyword::Any),
        TypeModel::Null => ExprModel::Keyword(Keyword::Null),
        TypeModel::Boolean => ExprModel::Keyword(Keyword::Boolean),
        TypeModel::Text => ExprModel::Keyword(Keyword::Text),
        TypeModel::Number => ExprModel::Keyword(Keyword::Number),
        TypeModel::Bytes => ExprModel::Keyword(Keyword::ArrayBuffer),
        TypeModel::Decimal => ExprModel::Keyword(
            if flags.target_sdk {
                Keyword::Decimal
            } else {
                Keyword::Number
            },
        ),
        TypeModel::Duration => ExprModel::Keyword(
            if flags.target_sdk {
                Keyword::Duration
            } else {
                Keyword::Text
            },
        ),
        TypeModel::Uuid => ExprModel::Keyword(
            if flags.target_sdk {
                Keyword::Uuid
            } else {
                Keyword::Text
            },
        ),
        TypeModel::Date => match direction {
            Direction::In => ExprModel::Union(
                seq![ExprModel::Keyword(Keyword::Date), ExprModel::Keyword(Keyword::Text)],
            ),
            Direction::Out => ExprModel::Keyword(Keyword::Text),
        },
        TypeModel::Optional { inner } => ExprModel::Union(
            seq![mapped(*inner, direction, flags), ExprModel::Keyword(Keyword::Undefined)],
        ),
        TypeModel::Array { item } => ExprModel::Array(Box::new(mapped(*item, direction, flags))),
        TypeModel::Object { fields } => match fields {
            Some(fs) => ExprModel::Object(members(fs, direction, flags)),
            None => ExprModel::Keyword(Keyword::Object),
        },
        TypeModel::Record { tables } => if tables.len() == 0 {
            match direction {
                Direction::In => any_record(flags),
                Direction::Out => if flags.links_fetched {
                    ExprModel::Keyword(Keyword::Unknown)
                } else {
                    ExprModel::Union(seq![ExprModel::Keyword(Keyword::Unknown), any_record(flags)])
                },
            }
        } else {
            ExprModel::Union(
                Seq::new(tables.len(), |i: int| reference(tables[i], direction, flags)),
            )
        },
        TypeModel::Union { variants } => ExprModel::Union(mapped_each(variants, direction, flags)),
        TypeModel::TextEnum { variants } => ExprModel::Union(
            Seq::new(variants.len(), |i: int| ExprModel::TextLiteral(variants[i])),
        ),
        TypeModel::NumberEnum { variants } => ExprModel::Union(
            Seq::new(variants.len(), |i: int| ExprModel::NumberLiteral(variants[i])),
        ),
        TypeModel::TextLiteral { value } => ExprModel::TextLiteral(value),
        TypeModel::NumberLiteral { value } => ExprModel::NumberLiteral(value),
        TypeModel::Tuple { items } => ExprModel::Tuple(mapped_each(items, direction, flags)),
    }
}

/// The member for the identifier of the rows of `table`: optional to write,
/// present to read.
pub open spec fn id_member(table: Seq<char>, direction: Direction, flags: Flags) -> MemberModel {
    MemberModel {
        name: seq!['i', 'd'],
        optional: direction is In,
        ty: if flags.target_sdk {
            ExprModel::RecordIdOf { table }
        } else {
            ExprModel::Keyword(Keyword::Text)
        },
    }
}

/// The type of the rows of a table: its identifier, then its fields.
pub open spec fn table_type(
    table: Seq<char>,
    fields: Seq<(Seq<char>, MetaModel)>,
    direction: Direction,
    flags: Flags,
) -> ExprModel {
    ExprModel::Object(seq![id_member(table, direction, flags)] + members(fields, direction, flags))
}

/// The mapping of a list of types, read by index.
pub proof fn lemma_mapped_each(ts: Seq<TypeModel>, direction: Direction, flags: Flags)
    ensures
        mapped_each(ts, direction, flags).len() == ts.len(),
        forall|i: int|
            0 <= i < ts.len() ==> #[trigger] mapped_each(ts, direction, flags)[i] == mapped(
                ts[i],
                direction,
                flags,
            ),
    decreases ts.len(),
{
    if ts.len() > 0 {
        lemma_mapped_each(ts.drop_last(), direction, flags);
    }
}

/// The members made of a list of fields, read by index.
pub proof fn lemma_members(fs: Seq<(Seq<char>, MetaModel)>, direction: Direction, flags: Flags)
    ensures
        members(fs, direction, flags).len() == fs.len(),
        forall|i: int|
            0 <= i < fs.len() ==> #[trigger] members(fs, direction, flags)[i] == (MemberModel {
                name: fs[i].0,
                optional: may_be_left_out(fs[i].1, direction),
                ty: mapped(fs[i].1.ty, direction, flags),
            }),
    decreases fs.len(),
{
    if fs.len() > 0 {
        lemma_members(fs.drop_last(), direction, flags);
    }
}

/// An object without a declared shape maps to the opaque object type, and
/// an object with a declared shape to an object type with one member for
/// each of its fields, in their order and under their names.
pub proof fn lemma_object_mapping(
    fields: Option<Seq<(Seq<char>, MetaModel)>>,
    direction: Direction,
    flags: Flags,
)
    ensures
        fields is None ==> mapped(TypeModel::Object { fields }, direction, flags)
            == ExprModel::Keyword(Keyword::Object),
        fields matches Some(fs) ==> mapped(TypeModel::Object { fields }, direction, flags)
            matches ExprModel::Object(ms) && ms.len() == fs.len() && forall|i: int|
            0 <= i < fs.len() ==> (#[trigger] ms[i]).name == fs[i].0,
{
    if fields is Some {
        lemma_members(fields->0, direction, flags);
    }
}

/// A field that has a default and is not optional by type may be left out
/// when it is written, and not when it is read; a field that is optional by
/// type may be left out either way.
pub proof fn lemma_optional_members(meta: MetaModel)
    ensures
        meta.ty is Optional ==> may_be_left_out(meta, Direction::In) && may_be_left_out(
            meta,
            Direction::Out,
        ),
        !(meta.ty is Optional) ==> may_be_left_out(meta, Direction::In) == meta.has_default
            && !may_be_left_out(meta, Direction::Out),
{
}

/// The type of an identifier of any record.
fn any_record_type(flags: Flags) -> (r: TsType)
    ensures
        r@ == any_record(flags),
{
    if flags.target_sdk {
        TsType::Keyword(Keyword::RecordId)
    } else {
        TsType::Keyword(Keyword::Text)
    }
}

/// The type of a reference to a row of `table`.
fn reference_type(table: &String, direction: Direction, flags: Flags) -> (r: TsType)
    ensures
        r@ == reference(table@, direction, flags),
{
    match direction {
        Direction::In => TsType::RequiredId { table: table.clone(), direction },
        Direction::Out => if flags.links_fetched {
            TsType::Interface { table: table.clone(), direction }
        } else {
            let mut either: Vec<TsType> = Vec::new();
            either.push(TsType::Interface { table: table.clone(), direction });
            either.push(TsType::IdOf { table: table.clone(), direction });
            proof {
                lemma_expr_models(either@);
                assert(expr_models(either@) =~= seq![
                    ExprModel::Interface { table: table@, direction },
                    ExprModel::IdOf { table: table@, direction },
                ]);
            }
            TsType::Union(either)
        },
    }
}

/// The union of two types.
fn either_of(a: TsType, b: TsType) -> (r: TsType)
    ensures
        r@ == ExprModel::Union(seq![a@, b@]),
{
    let mut either: Vec<TsType> = Vec::new();
    either.push(a);
    either.push(b);
    proof {
        lemma_expr_models(either@);
        assert(expr_models(either@) =~= seq![a@, b@]);
    }
    TsType::Union(either)
}

/// The literals of an enumeration, of texts or of numbers.
fn literals(values: &Vec<String>, of_text: bool) -> (r: Vec<TsType>)
    ensures
        expr_models(r@).len() == values.len(),
        forall|i: int|
            0 <= i < values.len() ==> #[trigger] expr_models(r@)[i] == if of_text {
                ExprModel::TextLiteral(values@[i]@)
            } else {
                ExprModel::NumberLiteral(values@[i]@)
            },
{
    let mut out: Vec<TsType> = Vec::new();
    let mut i: usize = 0;
    while i < values.len()
        invariant
            i <= values.len(),
            out.len() == i,
            forall|j: int|
                0 <= j < i ==> (#[trigger] out@[j])@ == if of_text {
                    ExprModel::TextLiteral(values@[j]@)
                } else {
                    ExprModel::NumberLiteral(values@[j]@)
                },
        decreases values.len() - i,
    {
        if of_text {
            out.push(TsType::TextLiteral(values[i].clone()));
        } else {
            out.push(TsType::NumberLiteral(values[i].clone()));
        }
        i += 1;
    }
    proof {
        lemma_expr_models(out@);
    }
    out
}

/// The types, mapped one by one.
fn map_each(ts: &Vec<CanonicalType>, direction: Direction, flags: Flags) -> (r: Vec<TsType>)
    ensures
        expr_models(r@) == mapped_each(type_models(ts@), direction, flags),
    decreases ts, 0int,
{
    let mut out: Vec<TsType> = Vec::new();
    let mut i: usize = 0;
    while i < ts.len()
        invariant
            i <= ts.len(),
            out.len() == i,
            forall|j: int| 0 <= j < i ==> (#[trigger] out@[j])@ == mapped(ts@[j]@, direction, flags),
        decreases ts.len() - i,
    {
        proof {
            assert(decreases_to!(ts => ts@));
            assert(decreases_to!(ts@ => ts@[i as int]));
        }
        out.push(map_type(&ts[i], direction, flags));
        i += 1;
    }
    proof {
        lemma_expr_models(out@);
        lemma_type_models(ts@);
        lemma_mapped_each(type_models(ts@), direction, flags);
        assert(expr_models(out@) =~= mapped_each(type_models(ts@), direction, flags));
    }
    out
}

/// The members for the fields, in their order.
fn map_members(fs: &Vec<(String, FieldMeta)>, direction: Direction, flags: Flags, out: &mut Vec<
    Member,
>)
    ensures
        member_models(final(out)@) == member_models(old(out)@) + members(
            meta_models(fs@),
            direction,
            flags,
        ),
    decreases fs, 0int,
{
    let ghost given = out@;
    let mut i: usize = 0;
    while i < fs.len()
        invariant
            i <= fs.len(),
            out.len() == given.len() + i,
            forall|j: int| 0 <= j < given.len() ==> out@[j] == given[j],
            forall|j: int|
                given.len() <= j < out.len() ==> (#[trigger] out@[j])@ == (MemberModel {
                    name: fs@[j - given.len()].0@,
                    optional: may_be_left_out(fs@[j - given.len()].1@, direction),
                    ty: mapped(fs@[j - given.len()].1@.ty, direction, flags),
                }),
        decreases fs.len() - i,
    {
        proof {
            assert(decreases_to!(fs => fs@));
            assert(decreases_to!(fs@ => fs@[i as int]));
            assert(decreases_to!(fs@[i as int] => fs@[i as int].1));
            assert(decreases_to!(fs@[i as int].1 => fs@[i as int].1.ty));
        }
        let meta = &fs[i].1;
        let optional = match &meta.ty {
            CanonicalType::Optional { .. } => true,
            _ => match direction {
                Direction::In => meta.has_default,
                Direction::Out => false,
            },
        };
        let ty = map_type(&meta.ty, direction, flags);
        out.push(Member { name: fs[i].0.clone(), optional, ty });
        i += 1;
    }
    proof {
        lemma_member_models(out@);
        lemma_member_models(given);
        lemma_meta_models(fs@);
        lemma_members(meta_models(fs@), direction, flags);
        assert(member_models(out@) =~= member_models(given) + members(
            meta_models(fs@),
            direction,
            flags,
        ));
    }
}

/// The type expression for a canonical type.
pub fn map_type(t: &CanonicalType, direction: Direction, flags: Flags) -> (r: TsType)
    ensures
        r@ == mapped(t@, direction, flags),
    decreases t, 1int,
{
    match t {
        CanonicalType::Any => TsType::Keyword(Keyword::Any),
        CanonicalType::Null => TsType::Keyword(Keyword::Null),
        CanonicalType::Boolean => TsType::Keyword(Keyword::Boolean),
        CanonicalType::Text => TsType::Keyword(Keyword::Text),
        CanonicalType::Number => TsType::Keyword(Keyword::Number),
        CanonicalType::Bytes => TsType::Keyword(Keyword::ArrayBuffer),
        CanonicalType::Decimal => TsType::Keyword(
            if flags.target_sdk {
                Keyword::Decimal
            } else {
                Keyword::Number
            },
        ),
        CanonicalType::Duration => TsType::Keyword(
            if flags.target_sdk {
                Keyword::Duration
            } else {
                Keyword::Text
            },
        ),
        CanonicalType::Uuid => TsType::Keyword(
            if flags.target_sdk {
                Keyword::Uuid
            } else {
                Keyword::Text
            },
        ),
        CanonicalType::Date => match direction {
            Direction::In => either_of(
                TsType::Keyword(Keyword::Date),
                TsType::Keyword(Keyword::Text),
            ),
            Direction::Out => TsType::Keyword(Keyword::Text),
        },
        CanonicalType::Optional { inner } => either_of(
            map_type(inner, direction, flags),
            TsType::Keyword(Keyword::Undefined),
        ),
        CanonicalType::Array { item } => TsType::Array(Box::new(map_type(item, direction, flags))),
        CanonicalType::Object { fields } => match fields {
            Some(fs) => {
                let mut out: Vec<Member> = Vec::new();
                proof {
                    lemma_member_models(out@);
                }
                map_members(fs, direction, flags, &mut out);
                proof {
                    assert(Seq::<MemberModel>::empty() + members(
                        meta_models(fs@),
                        direction,
                        flags,
                    ) =~= members(meta_models(fs@), direction, flags));
                }
                TsType::Object(out)
            },
            None => TsType::Keyword(Keyword::Object),
        },
        CanonicalType::Record { tables } => {
            if tables.len() == 0 {
                match direction {
                    Direction::In => any_record_type(flags),
                    Direction::Out => if flags.links_fetched {
                        TsType::Keyword(Keyword::Unknown)
                    } else {
                        either_of(TsType::Keyword(Keyword::Unknown), any_record_type(flags))
                    },
                }
            } else {
                let mut out: Vec<TsType> = Vec::new();
                let mut i: usize = 0;
                while i < tables.len()
                    invariant
                        i <= tables.len(),
                        out.len() == i,
                        forall|j: int|
                            0 <= j < i ==> (#[trigger] out@[j])@ == reference(
                                tables@[j]@,
                                direction,
                                flags,
                            ),
                    decreases tables.len() - i,
                {
                    out.push(reference_type(&tables[i], direction, flags));
                    i += 1;
                }
                proof {
                    lemma_expr_models(out@);
                    assert(expr_models(out@) =~= mapped(t@, direction, flags)->Union_0);
                }
                TsType::Union(out)
            }
        },
        CanonicalType::Union { variants } => TsType::Union(map_each(variants, direction, flags)),
        CanonicalType::TextEnum { variants } => {
            let out = literals(variants, true);
            assert(expr_models(out@) =~= mapped(t@, direction, flags)->Union_0);
            TsType::Union(out)
        },
        CanonicalType::NumberEnum { variants } => {
            let out = literals(variants, false);
            assert(expr_models(out@) =~= mapped(t@, direction, flags)->Union_0);
            TsType::Union(out)
        },
        CanonicalType::TextLiteral { value } => TsType::TextLiteral(value.clone()),
        CanonicalType::NumberLiteral { value } => TsType::NumberLiteral(value.clone()),
        CanonicalType::Tuple { items } => TsType::Tuple(map_each(items, direction, flags)),
    }
}

/// The type of the rows of a table: its identifier, then its fields.
pub fn map_table(table: &TableMeta, direction: Direction, flags: Flags) -> (r: TsType)
    ensures
        r@ == table_type(table@.name, table@.fields, direction, flags),
{
    let id = Member {
        name: "id".to_owned(),
        optional: match direction {
            Direction::In => true,
            Direction::Out => false,
        },
        ty: if flags.target_sdk {
            TsType::RecordIdOf { table: table.name.clone() }
        } else {
            TsType::Keyword(Keyword::Text)
        },
    };
    proof {
        reveal_strlit("id");
        assert("id"@ =~= seq!['i', 'd']);
    }
    let mut out: Vec<Member> = Vec::new();
    out.push(id);
    proof {
        lemma_member_models(out@);
        assert(member_models(out@) =~= seq![id_member(table@.name, direction, flags)]);
    }
    map_members(&table.fields, direction, flags, &mut out);
    TsType::Object(out)
}

/// The name `name` in Pascal case, as the case conversion of the
/// `convert_case` crate writes it.
pub uninterp spec fn pascal_case(name: Seq<char>) -> Seq<char>;

/// `Casing::to_case` of `convert_case` with `Case::Pascal`: the words of the
/// name, each with a capital first letter, without a delimiter. The result
/// depends on the name alone; it is named and not described further.
#[verifier::external_body]
fn to_pascal_case(name: &str) -> (r: String)
    ensures
        r@ == pascal_case(name@),
{
    name.to_case(Case::Pascal)
}

/// What stands in front of the names of the interfaces of a direction.
pub open spec fn direction_prefix(direction: Direction) -> Seq<char> {
    match direction {
        Direction::In => "In"@,
        Direction::Out => "Out"@,
    }
}

/// The name of the interface of the rows of `table` in a direction.
pub open spec fn interface_name(table: Seq<char>, direction: Direction) -> Seq<char> {
    direction_prefix(direction) + pascal_case(table)
}

/// The name of an interface, from the name of its table in Pascal case.
pub fn prefixed(pascal: &str, direction: Direction) -> (r: String)
    ensures
        r@ == direction_prefix(direction) + pascal@,
{
    match direction {
        Direction::In => followed_by("In", pascal),
        Direction::Out => followed_by("Out", pascal),
    }
}

/// The name of the interface of the rows of `table` in a direction.
pub fn interface_name_of(table: &str, direction: Direction) -> (r: String)
    ensures
        r@ == interface_name(table@, direction),
{
    let pascal = to_pascal_case(table);
    prefixed(pascal.as_str(), direction)
}

/// The name of the interface of the rows of `name`: of the shape that is
/// read where `from_db`, of the shape that is written otherwise.
pub fn create_interface_name(name: &str, from_db: bool) -> (r: String)
    ensures
        r@ == interface_name(
            name@,
            if from_db {
                Direction::Out
            } else {
                Direction::In
            },
        ),
{
    if from_db {
        interface_name_of(name, Direction::Out)
    } else {
        interface_name_of(name, Direction::In)
    }
}

/// The text of a keyword.
pub open spec fn keyword_text(k: Keyword) -> Seq<char> {
    match k {
        Keyword::Any => "any"@,
        Keyword::Null => "null"@,
        Keyword::Boolean => "boolean"@,
        Keyword::Number => "number"@,
        Keyword::Text => "string"@,
        Keyword::Date => "Date"@,
        Keyword::ArrayBuffer => "ArrayBuffer"@,
        Keyword::Decimal => "Decimal"@,
        Keyword::Duration => "Duration"@,
        Keyword::Uuid => "Uuid"@,
        Keyword::Object => "object"@,
        Keyword::Unknown => "unknown"@,
        Keyword::Undefined => "undefined"@,
        Keyword::RecordId => "RecordId"@,
    }
}

/// Two spaces for each level of nesting.
pub open spec fn indent_text(depth: nat) -> Seq<char>
    decreases depth,
{
    if depth == 0 {
        Seq::empty()
    } else {
        indent_text((depth - 1) as nat) + "  "@
    }
}

/// The texts `parts` with `sep` between each two of them.
pub open spec fn joined(parts: Seq<Seq<char>>, sep: Seq<char>) -> Seq<char>
    decreases parts.len(),
{
    if parts.len() == 0 {
        Seq::empty()
    } else if parts.len() == 1 {
        parts[0]
    } else {
        joined(parts.drop_last(), sep) + sep + parts.last()
    }
}

/// The texts of the expressions `es`.
pub open spec fn rendered_each(es: Seq<ExprModel>, depth: nat) -> Seq<Seq<char>>
    decreases es, 0int,
{
    if es.len() == 0 {
        Seq::empty()
    } else {
        rendered_each(es.drop_last(), depth).push(rendered(es.last(), depth))
    }
}

/// The rows of the members `ms` of an object at the nesting level `depth`:
/// for each the indentation, the name, a `?` where it may be left out, a
/// colon, its type, a comma and a line break.
pub open spec fn rows(ms: Seq<MemberModel>, depth: nat) -> Seq<char>
    decreases ms, 0int,
{
    if ms.len() == 0 {
        Seq::empty()
    } else {
        rows(ms.drop_last(), depth) + indent_text(depth) + ms.last().name + (if ms.last().optional {
            "?"@
        } else {
            ""@
        }) + ": "@ + rendered(ms.last().ty, depth) + ",\n"@
    }
}

/// The text of the expression `e` inside an object at the nesting level
/// `depth`; at level 0 outside any object.
pub open spec fn rendered(e: ExprModel, depth: nat) -> Seq<char>
    decreases e, 1int,
{
    match e {
        ExprModel::Keyword(k) => keyword_text(k),
        ExprModel::TextLiteral(v) => "'"@ + v + "'"@,
        ExprModel::NumberLiteral(v) => v,
        ExprModel::Union(es) => joined(rendered_each(es, depth), " | "@),
        ExprModel::Array(item) => "Array<"@ + rendered(*item, depth) + ">"@,
        ExprModel::Tuple(es) => "["@ + joined(rendered_each(es, depth), ", "@) + "]"@,
        ExprModel::Object(ms) => "{\n"@ + rows(ms, depth + 1) + indent_text(depth) + "}"@,
        ExprModel::Interface { table, direction } => interface_name(table, direction),
        ExprModel::RequiredId { table, direction } => "Required<"@ + interface_name(
            table,
            direction,
        ) + ">['id']"@,
        ExprModel::IdOf { table, direction } => interface_name(table, direction) + "['id']"@,
        ExprModel::RecordIdOf { table } => "RecordId<\""@ + table + "\">"@,
    }
}

/// The definition of the type of the rows of a table in a direction.
pub open spec fn table_definition(
    table: Seq<char>,
    fields: Seq<(Seq<char>, MetaModel)>,
    direction: Direction,
    flags: Flags,
) -> Seq<char> {
    "export type "@ + interface_name(table, direction) + " = "@ + rendered(
        table_type(table, fields, direction, flags),
        0,
    )
}

/// The texts of a list of type expressions, read by index.
pub proof fn lemma_rendered_each(es: Seq<ExprModel>, depth: nat)
    ensures
        rendered_each(es, depth).len() == es.len(),
        forall|i: int|
            0 <= i < es.len() ==> #[trigger] rendered_each(es, depth)[i] == rendered(es[i], depth),
    decreases es.len(),
{
    if es.len() > 0 {
        lemma_rendered_each(es.drop_last(), depth);
    }
}

/// The indentation of the nesting level `depth`.
pub fn indent(depth: usize) -> (r: String)
    ensures
        r@ == indent_text(depth as nat),
{
    let mut r = String::new();
    let mut i: usize = 0;
    while i < depth
        invariant
            i <= depth,
            r@ == indent_text(i as nat),
        decreases depth - i,
    {
        r.append("  ");
        i += 1;
    }
    r
}

/// Appends the expressions with `sep` between each two of them.
fn render_joined(
    out: &mut String,
    es: &Vec<TsType>,
    sep: &str,
    indentation: &str,
    Ghost(depth): Ghost<nat>,
)
    requires
        indentation@ == indent_text(depth),
    ensures
        final(out)@ == old(out)@ + joined(rendered_each(expr_models(es@), depth), sep@),
    decreases es, 0int,
{
    let ghost given = out@;
    let ghost all = rendered_each(expr_models(es@), depth);
    proof {
        lemma_expr_models(es@);
        lemma_rendered_each(expr_models(es@), depth);
        assert(all.take(0) =~= Seq::<Seq<char>>::empty());
        assert(given + joined(all.take(0), sep@) =~= given);
    }
    let mut i: usize = 0;
    while i < es.len()
        invariant
            i <= es.len(),
            indentation@ == indent_text(depth),
            all == rendered_each(expr_models(es@), depth),
            all.len() == es.len(),
            forall|j: int| 0 <= j < es.len() ==> #[trigger] all[j] == rendered(es@[j]@, depth),
            out@ == given + joined(all.take(i as int), sep@),
        decreases es.len() - i,
    {
        let ghost before = out@;
        proof {
            assert(decreases_to!(es => es@));
            assert(decreases_to!(es@ => es@[i as int]));
        }
        if i > 0 {
            out.append(sep);
        }
        render_into(out, &es[i], indentation, Ghost(depth));
        proof {
            let next = all.take(i + 1);
            assert(next.drop_last() =~= all.take(i as int));
            assert(next.last() == all[i as int]);
            if i == 0 {
                assert(joined(all.take(0), sep@) =~= Seq::<char>::empty());
                assert(out@ =~= given + joined(next, sep@));
            } else {
                assert(out@ =~= given + joined(next, sep@));
            }
        }
        i += 1;
    }
    proof {
        assert(all.take(es.len() as int) =~= all);
    }
}

/// Appends the rows of the members of an object at the nesting level
/// `depth`.
fn render_rows(out: &mut String, ms: &Vec<Member>, indentation: &str, Ghost(depth): Ghost<nat>)
    requires
        indentation@ == indent_text(depth),
    ensures
        final(out)@ == old(out)@ + rows(member_models(ms@), depth),
    decreases ms, 0int,
{
    let ghost given = out@;
    let ghost all = member_models(ms@);
    proof {
        lemma_member_models(ms@);
        assert(all.take(0) =~= Seq::<MemberModel>::empty());
        assert(given + rows(all.take(0), depth) =~= given);
    }
    let mut i: usize = 0;
    while i < ms.len()
        invariant
            i <= ms.len(),
            indentation@ == indent_text(depth),
            all == member_models(ms@),
            all.len() == ms.len(),
            forall|j: int| 0 <= j < ms.len() ==> #[trigger] all[j] == ms@[j]@,
            out@ == given + rows(all.take(i as int), depth),
        decreases ms.len() - i,
    {
        proof {
            assert(decreases_to!(ms => ms@));
            assert(decreases_to!(ms@ => ms@[i as int]));
            assert(decreases_to!(ms@[i as int] => ms@[i as int].ty));
        }
        let member = &ms[i];
        out.append(indentation);
        out.append(member.name.as_str());
        if member.optional {
            out.append("?");
        } else {
            out.append("");
        }
        out.append(": ");
        render_into(out, &member.ty, indentation, Ghost(depth));
        out.append(",\n");
        proof {
            let next = all.take(i + 1);
            assert(next.drop_last() =~= all.take(i as int));
            assert(next.last() == all[i as int]);
            assert(out@ =~= given + rows(next, depth));
        }
        i += 1;
    }
    proof {
        assert(all.take(ms.len() as int) =~= all);
    }
}

/// Appends the text of the expression inside an object at the nesting level
/// `depth`.
fn render_into(out: &mut String, e: &TsType, indentation: &str, Ghost(depth): Ghost<nat>)
    requires
        indentation@ == indent_text(depth),
    ensures
        final(out)@ == old(out)@ + rendered(e@, depth),
    decreases e, 1int,
{
    let ghost given = out@;
    match e {
        TsType::Keyword(k) => {
            match k {
                Keyword::Any => out.append("any"),
                Keyword::Null => out.append("null"),
                Keyword::Boolean => out.append("boolean"),
                Keyword::Number => out.append("number"),
                Keyword::Text => out.append("string"),
                Keyword::Date => out.append("Date"),
                Keyword::ArrayBuffer => out.append("ArrayBuffer"),
                Keyword::Decimal => out.append("Decimal"),
                Keyword::Duration => out.append("Duration"),
                Keyword::Uuid => out.append("Uuid"),
                Keyword::Object => out.append("object"),
                Keyword::Unknown => out.append("unknown"),
                Keyword::Undefined => out.append("undefined"),
                Keyword::RecordId => out.append("RecordId"),
            }
        },
        TsType::TextLiteral(v) => {
            out.append("'");
            out.append(v.as_str());
            out.append("'");
            assert(out@ =~= given + rendered(e@, depth));
        },
        TsType::NumberLiteral(v) => {
            out.append(v.as_str());
        },
        TsType::Union(es) => {
            render_joined(out, es, " | ", indentation, Ghost(depth));
        },
        TsType::Array(item) => {
            out.append("Array<");
            render_into(out, item, indentation, Ghost(depth));
            out.append(">");
            assert(out@ =~= given + rendered(e@, depth));
        },
        TsType::Tuple(es) => {
            out.append("[");
            render_joined(out, es, ", ", indentation, Ghost(depth));
            out.append("]");
            assert(out@ =~= given + rendered(e@, depth));
        },
        TsType::Object(ms) => {
            let inner = followed_by(indentation, "  ");
            out.append("{\n");
            render_rows(out, ms, inner.as_str(), Ghost(depth + 1));
            out.append(indentation);
            out.append("}");
            assert(out@ =~= given + rendered(e@, depth));
        },
        TsType::Interface { table, direction } => {
            let name = interface_name_of(table.as_str(), *direction);
            out.append(name.as_str());
        },
        TsType::RequiredId { table, direction } => {
            let name = interface_name_of(table.as_str(), *direction);
            out.append("Required<");
            out.append(name.as_str());
            out.append(">['id']");
            assert(out@ =~= given + rendered(e@, depth));
        },
        TsType::IdOf { table, direction } => {
            let name = interface_name_of(table.as_str(), *direction);
            out.append(name.as_str());
            out.append("['id']");
            assert(out@ =~= given + rendered(e@, depth));
        },
        TsType::RecordIdOf { table } => {
            out.append("RecordId<\"");
            out.append(table.as_str());
            out.append("\">");
            assert(out@ =~= given + rendered(e@, depth));
        },
    }
}

/// The text of the expression inside an object at the nesting level
/// `depth`; at level 0 outside any object.
pub fn render(e: &TsType, depth: usize) -> (r: String)
    ensures
        r@ == rendered(e@, depth as nat),
{
    let indentation = indent(depth);
    let mut out = String::new();
    render_into(&mut out, e, indentation.as_str(), Ghost(depth as nat));
    assert(Seq::<char>::empty() + rendered(e@, depth as nat) =~= rendered(e@, depth as nat));
    out
}

/// Writes the type definitions of tables by the settings of a run.
pub struct TSGenerator<'a> {
    pub config: &'a Config,
}

/// The views of tables.
pub open spec fn table_models(ts: Seq<TableMeta>) -> Seq<crate::meta::TableModel> {
    Seq::new(ts.len(), |i: int| ts[i]@)
}

/// The definitions of the types of the rows of the tables: for each table
/// the shape that is written, an empty line, the shape that is read, and an
/// empty line.
pub open spec fn definitions(tables: Seq<crate::meta::TableModel>, flags: Flags) -> Seq<char>
    decreases tables.len(),
{
    if tables.len() == 0 {
        Seq::empty()
    } else {
        let t = tables.last();
        definitions(tables.drop_last(), flags) + table_definition(
            t.name,
            t.fields,
            Direction::In,
            flags,
        ) + "\n\n"@ + table_definition(t.name, t.fields, Direction::Out, flags) + "\n\n"@
    }
}

/// The text of the file of type definitions: the import of the types of
/// the database client where they are used; the definitions of the tables;
/// the descriptions of the tables, given as JSON, unless they are left out;
/// and the types of those descriptions where the descriptions are written
/// or stored.
pub open spec fn file_text(
    config: Config,
    tables: Seq<crate::meta::TableModel>,
    meta_json: Seq<char>,
    meta_types: Seq<char>,
) -> Seq<char> {
    let flags = Flags { links_fetched: config.links_fetched, target_sdk: config.target_sdk };
    (if config.target_sdk {
        "import { RecordId, Duration, Uuid, Decimal } from \"surrealdb\";\n\n"@
    } else {
        ""@
    }) + "// ---------- TABLE TYPES ----------\n"@ + definitions(tables, flags) + (if !config.no_meta {
        "// ---------- TABLE META STRUCTURE ----------\n"@ + "export const tables = "@ + meta_json
            + " as const satisfies Record<string, TableMeta>\n\n"@
    } else {
        ""@
    }) + (if config.store_meta_in_db || !config.no_meta {
        "// ---------- TABLE META TYPES ----------\n"@ + meta_types + "\n"@
    } else {
        ""@
    })
}

impl<'a> TSGenerator<'a> {
    /// A generator for the settings `config`.
    pub fn new(config: &'a Config) -> (r: TSGenerator<'a>)
        ensures
            r.config == config,
    {
        TSGenerator { config }
    }

    /// The settings that the mapping depends on.
    pub open spec fn spec_flags(&self) -> Flags {
        Flags { links_fetched: self.config.links_fetched, target_sdk: self.config.target_sdk }
    }

    /// The settings that the mapping depends on.
    #[verifier::when_used_as_spec(spec_flags)]
    pub fn flags(&self) -> (r: Flags)
        ensures
            r == self.spec_flags(),
    {
        Flags { links_fetched: self.config.links_fetched, target_sdk: self.config.target_sdk }
    }

    /// The text of the type of `ty` inside an object at the nesting level
    /// `depth`.
    pub fn get_ts_type(&self, ty: &CanonicalType, direction: Direction, depth: usize) -> (r: String)
        ensures
            r@ == rendered(mapped(ty@, direction, self.flags()), depth as nat),
    {
        render(&map_type(ty, direction, self.flags()), depth)
    }

    /// The text of the object with the fields `fields` at the nesting level
    /// `depth`, with the identifier of the rows of a table in front where a
    /// table is named.
    pub fn get_object_definition(
        &self,
        fields: &Vec<(String, FieldMeta)>,
        direction: Direction,
        table_name: Option<&str>,
        depth: usize,
    ) -> (r: String)
        requires
            depth >= 1,
        ensures
            r@ == rendered(
                match table_name {
                    Some(name) => table_type(
                        name@,
                        meta_models(fields@),
                        direction,
                        self.flags(),
                    ),
                    None => ExprModel::Object(
                        members(meta_models(fields@), direction, self.flags()),
                    ),
                },
                (depth - 1) as nat,
            ),
    {
        let mut out: Vec<Member> = Vec::new();
        proof {
            lemma_member_models(out@);
        }
        let flags = self.flags();
        match table_name {
            Some(name) => {
                out.push(
                    Member {
                        name: "id".to_owned(),
                        optional: match direction {
                            Direction::In => true,
                            Direction::Out => false,
                        },
                        ty: if flags.target_sdk {
                            TsType::RecordIdOf { table: name.to_owned() }
                        } else {
                            TsType::Keyword(Keyword::Text)
                        },
                    },
                );
                proof {
                    reveal_strlit("id");
                    assert("id"@ =~= seq!['i', 'd']);
                    lemma_member_models(out@);
                    assert(member_models(out@) =~= seq![id_member(name@, direction, flags)]);
                }
            },
            None => {},
        }
        let ghost first = member_models(out@);
        map_members(fields, direction, flags, &mut out);
        proof {
            if table_name is None {
                assert(first + members(meta_models(fields@), direction, flags) =~= members(
                    meta_models(fields@),
                    direction,
                    flags,
                ));
            }
        }
        render(&TsType::Object(out), depth - 1)
    }

    /// The definition of the type of the rows of a table in a direction.
    pub fn get_table_definition(&self, table: &TableMeta, direction: Direction) -> (r: String)
        ensures
            r@ == table_definition(table@.name, table@.fields, direction, self.flags()),
    {
        let name = interface_name_of(table.name.as_str(), direction);
        let fields = self.get_object_definition(
            &table.fields,
            direction,
            Some(table.name.as_str()),
            1,
        );
        let mut out = followed_by("export type ", name.as_str());
        out.append(" = ");
        out.append(fields.as_str());
        out
    }

    /// The text of the file of type definitions. The descriptions of the
    /// tables as JSON, and the types of those descriptions, are given.
    pub fn write_tables(&self, tables: &Vec<TableMeta>, meta_json: &str, meta_types: &str) -> (r:
        String)
        ensures
            r@ == file_text(*self.config, table_models(tables@), meta_json@, meta_types@),
    {
        let mut out = String::new();
        if self.config.target_sdk {
            out.append("import { RecordId, Duration, Uuid, Decimal } from \"surrealdb\";\n\n");
        } else {
            out.append("");
        }
        out.append("// ---------- TABLE TYPES ----------\n");
        let ghost head = out@;
        let ghost all = table_models(tables@);
        let mut i: usize = 0;
        proof {
            assert(all.take(0) =~= Seq::<crate::meta::TableModel>::empty());
            assert(head + definitions(all.take(0), self.flags()) =~= head);
        }
        while i < tables.len()
            invariant
                i <= tables.len(),
                all == table_models(tables@),
                out@ == head + definitions(all.take(i as int), self.flags()),
            decreases tables.len() - i,
        {
            let written = self.get_table_definition(&tables[i], Direction::In);
            let read = self.get_table_definition(&tables[i], Direction::Out);
            out.append(written.as_str());
            out.append("\n\n");
            out.append(read.as_str());
            out.append("\n\n");
            proof {
                let next = all.take(i + 1);
                assert(next.drop_last() =~= all.take(i as int));
                assert(next.last() == tables@[i as int]@);
                assert(out@ =~= head + definitions(next, self.flags()));
            }
            i += 1;
        }
        proof {
            assert(all.take(tables.len() as int) =~= all);
        }
        if !self.config.no_meta {
            out.append("// ---------- TABLE META STRUCTURE ----------\n");
            out.append("export const tables = ");
            out.append(meta_json);
            out.append(" as const satisfies Record<string, TableMeta>\n\n");
        } else {
            out.append("");
        }
        if self.config.store_meta_in_db || !self.config.no_meta {
            out.append("// ---------- TABLE META TYPES ----------\n");
            out.append(meta_types);
            out.append("\n");
        } else {
            out.append("");
        }
        assert(out@ =~= file_text(*self.config, table_models(tables@), meta_json@, meta_types@));
        out
    }
}

} // verus!
