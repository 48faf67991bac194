//! Decoder for one field definition, such as
//! `DEFINE FIELD tags ON post TYPE option<array<record<user>>> COMMENT 'who';`.
//!
//! The grammar of a type expression is an ordered choice: the alternatives
//! are tried in the order given here, and the first whose opening text
//! stands at the start of the expression decides.
//!
//! - `option<T>`: `T` with the optional flag set;
//! - `array<T ...>` or `set<T ...>`: `T` with the array flag set, whatever
//!   follows `T` up to the closing `>` being skipped;
//! - `record<name ...>`: a reference to the table `name`, the first name
//!   where several are listed;
//! - a run of ASCII letters: a plain type of that name.
//!
//! The choice is committed: behind `option<`, `array<`, `set<` or `record<`
//! the expression is that wrapper or reference, or it is malformed. So
//! `option<123>`, `option<number` and `record<>` are rejected, and none of
//! them is read as a plain type named after the keyword. A keyword that no
//! `<` follows directly, as in `array`, is a plain type name.
use vstd::prelude::*;
use vstd::string::*;
use crate::text::{
    after, chars_of, continues_with, find, first_occurrence, is_letter, lemma_letters_exact,
    lemma_run_outside_exact, letters, run_outside, skip_letters, skip_outside,
};

verus! {

/// Why a field definition could not be decoded.
#[derive(Debug, Clone, Copy, PartialEq, Eq, Structural)]
pub enum DecodeError {
    /// The definition has no `TYPE` keyword.
    MissingType,
    /// The `TYPE` keyword is not followed by a space and a well-formed type
    /// expression: nothing of the grammar stands where a type is expected,
    /// at the start or inside a wrapper, a wrapper or reference is not
    /// closed, or a reference names no table.
    MalformedType,
    /// `COMMENT ` is not followed by a non-empty text in single quotes.
    MalformedComment,
}

/// What a type expression says: the innermost type name and the wrappers
/// that were found around it.
#[derive(Debug)]
pub struct FieldProps<'a> {
    pub is_optional: bool,
    pub is_array: bool,
    pub is_record: bool,
    pub name: &'a str,
}

/// A match of the type grammar at the start of a text.
pub struct TypeMatch {
    pub is_optional: bool,
    pub is_array: bool,
    pub is_record: bool,
    pub name: Seq<char>,
    /// What follows the matched expression.
    pub rest: Seq<char>,
}

impl<'a> FieldProps<'a> {
    /// The properties are those of the match `m`.
    pub open spec fn agrees(&self, m: TypeMatch) -> bool {
        &&& self.is_optional == m.is_optional
        &&& self.is_array == m.is_array
        &&& self.is_record == m.is_record
        &&& self.name@ == m.name
    }
}

/// The characters that end a table name inside `record<..>`.
pub open spec fn name_stops() -> Seq<char> {
    seq!['>', ',', '|', ' ']
}

/// The character that closes a wrapper.
pub open spec fn closing() -> Seq<char> {
    seq!['>']
}

/// Completes a wrapper around the inner match: the closing `>` must follow,
/// directly or, where `lenient`, behind anything that is not a `>`.
pub open spec fn closed(inner: Option<TypeMatch>, lenient: bool) -> Option<TypeMatch> {
    match inner {
        None => None,
        Some(m) => {
            let tail = if lenient {
                m.rest.skip(run_outside(m.rest, closing()) as int)
            } else {
                m.rest
            };
            if tail.len() > 0 && tail[0] == '>' {
                Some(TypeMatch { rest: tail.skip(1), ..m })
            } else {
                None
            }
        },
    }
}

/// `record<name ...>` at the start of `s`.
pub open spec fn record_match(s: Seq<char>) -> Option<TypeMatch> {
    match after(s, "record<"@) {
        None => None,
        Some(t) => {
            let n = run_outside(t, name_stops());
            let tail = t.skip(run_outside(t, closing()) as int);
            if n > 0 && tail.len() > 0 && tail[0] == '>' {
                Some(
                    TypeMatch {
                        is_optional: false,
                        is_array: false,
                        is_record: true,
                        name: t.take(n as int),
                        rest: tail.skip(1),
                    },
                )
            } else {
                None
            }
        },
    }
}

/// A plain type name at the start of `s`.
pub open spec fn identifier_match(s: Seq<char>) -> Option<TypeMatch> {
    let n = letters(s);
    if n > 0 {
        Some(
            TypeMatch {
                is_optional: false,
                is_array: false,
                is_record: false,
                name: s.take(n as int),
                rest: s.skip(n as int),
            },
        )
    } else {
        None
    }
}

/// The match `m`, if there is one, with the flags of a wrapper added.
pub open spec fn flagged(m: Option<TypeMatch>, optional: bool, array: bool) -> Option<TypeMatch> {
    match m {
        Some(m) => Some(
            TypeMatch {
                is_optional: m.is_optional || optional,
                is_array: m.is_array || array,
                ..m
            },
        ),
        None => None,
    }
}

/// The type expression at the start of `s`, by the committed choice of the
/// grammar: where `s` begins with the opening text of a wrapper or of a
/// reference, it is matched as that and as nothing else, so that there is
/// no match where its inner expression has none, where it is not closed, or
/// where the reference names no table. Only a text that begins with none
/// of the opening texts is matched as a plain type name.
pub open spec fn type_match(s: Seq<char>) -> Option<TypeMatch>
    decreases s.len(),
{
    match after(s, "option<"@) {
        Some(t) => flagged(closed(type_match(t), false), true, false),
        None => match after(s, "array<"@) {
            Some(t) => flagged(closed(type_match(t), true), false, true),
            None => match after(s, "set<"@) {
                Some(t) => flagged(closed(type_match(t), true), false, true),
                None => if after(s, "record<"@) is Some {
                    record_match(s)
                } else {
                    identifier_match(s)
                },
            },
        },
    }
}

/// A match of the grammar inside a vector of characters, by positions.
struct Span {
    is_optional: bool,
    is_array: bool,
    is_record: bool,
    name_from: usize,
    name_to: usize,
    end: usize,
}

impl Span {
    spec fn describes(self, cs: Seq<char>, m: TypeMatch) -> bool {
        &&& self.is_optional == m.is_optional
        &&& self.is_array == m.is_array
        &&& self.is_record == m.is_record
        &&& self.name_from <= self.name_to <= self.end <= cs.len()
        &&& m.name == cs.subrange(self.name_from as int, self.name_to as int)
        &&& m.rest == cs.skip(self.end as int)
    }
}

/// Whether a span, or its absence, is what the grammar gives on `cs`.
spec fn found(r: Option<Span>, cs: Seq<char>, m: Option<TypeMatch>) -> bool {
    match r {
        Some(sp) => m is Some && sp.describes(cs, m->0),
        None => m is None,
    }
}

/// The two stop sets, made once for a whole decoding.
struct Stops {
    closing: Vec<char>,
    name: Vec<char>,
}

impl Stops {
    spec fn wf(&self) -> bool {
        self.closing@ == closing() && self.name@ == name_stops()
    }

    fn new() -> (r: Stops)
        ensures
            r.wf(),
    {
        let mut c: Vec<char> = Vec::new();
        c.push('>');
        let mut n: Vec<char> = Vec::new();
        n.push('>');
        n.push(',');
        n.push('|');
        n.push(' ');
        assert(c@ =~= closing());
        assert(n@ =~= name_stops());
        Stops { closing: c, name: n }
    }
}

/// Closes a wrapper round the match of its inner expression: a `>` must follow, at once,
/// or, where the wrapper is lenient, behind what stands before the next closing character.
fn match_closed(cs: &Vec<char>, inner: Option<Span>, lenient: bool, stops: &Stops) -> (r: Option<
    Span,
>)
    requires
        stops.wf(),
        inner matches Some(sp) ==> sp.name_from <= sp.name_to <= sp.end <= cs.len(),
    ensures
        forall|m: Option<TypeMatch>| found(inner, cs@, m) ==> found(r, cs@, closed(m, lenient)),
{
    match inner {
        None => None,
        Some(sp) => {
            let tail = if lenient {
                skip_outside(cs, sp.end, &stops.closing)
            } else {
                sp.end
            };
            proof {
                assert(cs@.skip(sp.end as int).skip(tail - sp.end) =~= cs@.skip(tail as int));
                if tail < cs.len() {
                    assert(cs@.skip(tail as int).skip(1) =~= cs@.skip(tail + 1));
                }
            }
            if tail < cs.len() && cs[tail] == '>' {
                Some(Span { end: tail + 1, ..sp })
            } else {
                None
            }
        },
    }
}

/// Matches `record<name>` at `pos`, the name running up to the first stop character.
fn match_record(cs: &Vec<char>, pos: usize, stops: &Stops) -> (r: Option<Span>)
    requires
        stops.wf(),
        pos <= cs.len(),
    ensures
        found(r, cs@, record_match(cs@.skip(pos as int))),
{
    if !continues_with(cs, pos, "record<") {
        return None;
    }
    let start = pos + "record<".unicode_len();
    let name_end = skip_outside(cs, start, &stops.name);
    let tail = skip_outside(cs, start, &stops.closing);
    proof {
        let t = cs@.skip(start as int);
        assert(t.skip(tail - start) =~= cs@.skip(tail as int));
        assert(t.take(name_end - start) =~= cs@.subrange(start as int, name_end as int));
        if tail < cs.len() {
            assert(cs@.skip(tail as int).skip(1) =~= cs@.skip(tail + 1));
        }
        lemma_name_run_within_content(t);
    }
    if name_end > start && tail < cs.len() && cs[tail] == '>' {
        Some(
            Span {
                is_optional: false,
                is_array: false,
                is_record: true,
                name_from: start,
                name_to: name_end,
                end: tail + 1,
            },
        )
    } else {
        None
    }
}

/// A table name ends no later than the text between the angle brackets.
proof fn lemma_name_run_within_content(t: Seq<char>)
    ensures
        run_outside(t, name_stops()) <= run_outside(t, closing()),
    decreases t.len(),
{
    if t.len() > 0 && !name_stops().contains(t[0]) {
        assert(name_stops()[0] == '>');
        assert(!closing().contains(t[0]));
        lemma_name_run_within_content(t.skip(1));
    }
}

/// Matches a run of letters at `pos`, one letter at least.
fn match_identifier(cs: &Vec<char>, pos: usize) -> (r: Option<Span>)
    requires
        pos <= cs.len(),
    ensures
        found(r, cs@, identifier_match(cs@.skip(pos as int))),
{
    let end = skip_letters(cs, pos);
    proof {
        let s = cs@.skip(pos as int);
        assert(s.take(end - pos) =~= cs@.subrange(pos as int, end as int));
        assert(s.skip(end - pos) =~= cs@.skip(end as int));
    }
    if end > pos {
        Some(
            Span {
                is_optional: false,
                is_array: false,
                is_record: false,
                name_from: pos,
                name_to: end,
                end,
            },
        )
    } else {
        None
    }
}

/// Matches what stands inside the wrapper whose opening text, of `lead`
/// characters, was found at `pos`, closes it, and adds the wrapper's flags.
fn match_wrapped(
    cs: &Vec<char>,
    pos: usize,
    lead: usize,
    optional: bool,
    array: bool,
    stops: &Stops,
) -> (r: Option<Span>)
    requires
        stops.wf(),
        lead > 0,
        pos + lead <= cs.len(),
    ensures
        found(
            r,
            cs@,
            flagged(closed(type_match(cs@.skip(pos + lead)), array), optional, array),
        ),
    decreases cs.len() - pos, 0nat,
{
    let inner = match_type(cs, pos + lead, stops);
    match match_closed(cs, inner, array, stops) {
        Some(sp) => Some(
            Span {
                is_optional: sp.is_optional || optional,
                is_array: sp.is_array || array,
                ..sp
            },
        ),
        None => None,
    }
}

/// Matches a type expression at `pos`: the wrapper or reference whose
/// opening text stands there, or else a bare name.
fn match_type(cs: &Vec<char>, pos: usize, stops: &Stops) -> (r: Option<Span>)
    requires
        stops.wf(),
        pos <= cs.len(),
    ensures
        found(r, cs@, type_match(cs@.skip(pos as int))),
    decreases cs.len() - pos, 1nat,
{
    if continues_with(cs, pos, "option<") {
        match_wrapped(cs, pos, "option<".unicode_len(), true, false, stops)
    } else if continues_with(cs, pos, "array<") {
        match_wrapped(cs, pos, "array<".unicode_len(), false, true, stops)
    } else if continues_with(cs, pos, "set<") {
        match_wrapped(cs, pos, "set<".unicode_len(), false, true, stops)
    } else if continues_with(cs, pos, "record<") {
        match_record(cs, pos, stops)
    } else {
        match_identifier(cs, pos)
    }
}

/// Decodes the type expression at the start of `input`, and returns what
/// follows it together with its properties. Fails where the grammar has no
/// match: also where a wrapper or reference is opened and what stands
/// inside it is no type or table name, or it is not closed.
pub fn parse_type<'a>(input: &'a str) -> (r: Result<(&'a str, FieldProps<'a>), DecodeError>)
    ensures
        match type_match(input@) {
            Some(m) => r matches Ok((rest, props)) && rest@ == m.rest && props.agrees(m),
            None => r matches Err(e) && e == DecodeError::MalformedType,
        },
{
    let cs = chars_of(input);
    let stops = Stops::new();
    assert(cs@.skip(0) =~= input@);
    match match_type(&cs, 0, &stops) {
        None => Err(DecodeError::MalformedType),
        Some(sp) => {
            let name = input.substring_char(sp.name_from, sp.name_to);
            let rest = input.substring_char(sp.end, cs.len());
            Ok(
                (
                    rest,
                    FieldProps {
                        is_optional: sp.is_optional,
                        is_array: sp.is_array,
                        is_record: sp.is_record,
                        name,
                    },
                ),
            )
        },
    }
}

/// A match of the comment clause in the text behind a type expression.
pub struct CommentMatch {
    pub comment: Option<Seq<char>>,
    /// What follows the clause, or the text from the keyword on where the
    /// keyword does not open a clause.
    pub rest: Seq<char>,
}

/// The character that opens and closes a comment.
pub open spec fn quote() -> Seq<char> {
    seq!['\'']
}

/// The comment of the first `COMMENT` keyword in `s`: none where the keyword
/// is absent or not followed by a space, and no match where the space is not
/// followed by a non-empty text in single quotes.
pub open spec fn comment_match(s: Seq<char>) -> Option<CommentMatch> {
    match first_occurrence(s, "COMMENT"@, 0) {
        None => Some(CommentMatch { comment: None, rest: s }),
        Some(i) => match after(s.skip(i), "COMMENT "@) {
            None => Some(CommentMatch { comment: None, rest: s.skip(i) }),
            Some(t) => {
                let body = t.skip(1);
                let n = run_outside(body, quote());
                if t.len() > 0 && t[0] == '\'' && 0 < n < body.len() {
                    Some(
                        CommentMatch {
                            comment: Some(body.take(n as int)),
                            rest: body.skip(n as int + 1),
                        },
                    )
                } else {
                    None
                }
            },
        },
    }
}

/// Finds the comment in the text behind a type expression, and returns it
/// with what follows the clause.
pub fn parse_comment<'a>(input: &'a str) -> (r: Result<(&'a str, Option<&'a str>), DecodeError>)
    ensures
        match comment_match(input@) {
            Some(m) => r matches Ok((rest, comment)) && rest@ == m.rest && match m.comment {
                Some(c) => comment matches Some(text) && text@ == c,
                None => comment is None,
            },
            None => r matches Err(e) && e == DecodeError::MalformedComment,
        },
{
    let cs = chars_of(input);
    let len = cs.len();
    let at = match find(&cs, "COMMENT", 0) {
        None => {
            assert(input@.subrange(0, len as int) =~= input@);
            return Ok((input.substring_char(0, len), None));
        },
        Some(i) => i,
    };
    if !continues_with(&cs, at, "COMMENT ") {
        return Ok((input.substring_char(at, len), None));
    }
    let open = at + "COMMENT ".unicode_len();
    if open >= len || cs[open] != '\'' {
        return Err(DecodeError::MalformedComment);
    }
    let mut stops: Vec<char> = Vec::new();
    stops.push('\'');
    assert(stops@ =~= quote());
    let close = skip_outside(&cs, open + 1, &stops);
    proof {
        let t = cs@.skip(open as int);
        assert(t.skip(1) =~= cs@.skip(open + 1));
        assert(t.skip(1).take(close - open - 1) =~= cs@.subrange(open + 1, close as int));
        if close < len {
            assert(t.skip(1).skip(close - open) =~= cs@.skip(close + 1));
        }
    }
    if close == open + 1 || close >= len {
        return Err(DecodeError::MalformedComment);
    }
    Ok((input.substring_char(close + 1, len), Some(input.substring_char(open + 1, close))))
}

/// Whether one of the clauses that may follow a type expression begins at
/// the start of `s`.
pub open spec fn begins_clause(s: Seq<char>) -> bool {
    ||| after(s, "COMMENT"@) is Some
    ||| after(s, "DEFAULT"@) is Some
    ||| after(s, "VALUE"@) is Some
    ||| after(s, "ASSERT"@) is Some
    ||| after(s, "PERMISSIONS"@) is Some
}

/// Length of the type expression at the start of `s`: it ends before the
/// first clause keyword, or with `s`.
pub open spec fn expression_len(s: Seq<char>) -> nat
    decreases s.len(),
{
    if s.len() == 0 || begins_clause(s) {
        0
    } else {
        1 + expression_len(s.skip(1))
    }
}

/// A position before which no clause begins, and at which one does or the text ends, is
/// where the type expression ends.
proof fn lemma_expression_exact(cs: Seq<char>, start: int, end: int)
    requires
        0 <= start <= end <= cs.len(),
        forall|j: int| start <= j < end ==> !begins_clause(#[trigger] cs.skip(j)),
        end < cs.len() ==> begins_clause(cs.skip(end)),
    ensures
        expression_len(cs.skip(start)) == end - start,
    decreases end - start,
{
    if start < end {
        assert(cs.skip(start).skip(1) =~= cs.skip(start + 1));
        lemma_expression_exact(cs, start + 1, end);
    }
}

/// A field definition, cut into its type expression and what follows it.
pub struct DefinitionMatch {
    pub raw_type: Seq<char>,
    pub remaining: Seq<char>,
}

/// Cuts the definition `s` behind the first `TYPE` keyword, which a space
/// must follow, and again where the first clause keyword begins.
pub open spec fn definition_match(s: Seq<char>) -> Result<DefinitionMatch, DecodeError> {
    match first_occurrence(s, "TYPE"@, 0) {
        None => Err(DecodeError::MissingType),
        Some(i) => match after(s.skip(i), "TYPE "@) {
            None => Err(DecodeError::MalformedType),
            Some(t) => {
                let n = expression_len(t);
                Ok(DefinitionMatch { raw_type: t.take(n as int), remaining: t.skip(n as int) })
            },
        },
    }
}

/// Whether one of the clause keywords stands at `at`.
fn begins_clause_at(cs: &Vec<char>, at: usize) -> (r: bool)
    requires
        at <= cs.len(),
    ensures
        r == begins_clause(cs@.skip(at as int)),
{
    continues_with(cs, at, "COMMENT") || continues_with(cs, at, "DEFAULT") || continues_with(
        cs,
        at,
        "VALUE",
    ) || continues_with(cs, at, "ASSERT") || continues_with(cs, at, "PERMISSIONS")
}

/// Cuts a field definition into the clauses behind the type expression and
/// the type expression itself, in this order.
pub fn parse_type_from_definition<'a>(input: &'a str) -> (r: Result<(&'a str, &'a str), DecodeError>)
    ensures
        match definition_match(input@) {
            Ok(d) => r matches Ok((remaining, raw_type)) && remaining@ == d.remaining && raw_type@
                == d.raw_type,
            Err(e) => r matches Err(f) && f == e,
        },
{
    let cs = chars_of(input);
    let len = cs.len();
    let at = match find(&cs, "TYPE", 0) {
        None => {
            return Err(DecodeError::MissingType);
        },
        Some(i) => i,
    };
    if !continues_with(&cs, at, "TYPE ") {
        return Err(DecodeError::MalformedType);
    }
    let start = at + "TYPE ".unicode_len();
    let mut end: usize = start;
    while end < len && !begins_clause_at(&cs, end)
        invariant
            start <= end <= len,
            len == cs.len(),
            forall|j: int| start <= j < end ==> !begins_clause(#[trigger] cs@.skip(j)),
        decreases len - end,
    {
        end += 1;
    }
    proof {
        lemma_expression_exact(cs@, start as int, end as int);
        let t = cs@.skip(start as int);
        assert(t.take(end - start) =~= cs@.subrange(start as int, end as int));
        assert(t.skip(end - start) =~= cs@.skip(end as int));
    }
    Ok((input.substring_char(end, len), input.substring_char(start, end)))
}

/// Everything one field definition declares about the field.
#[derive(Debug, Clone, PartialEq, Eq)]
pub struct FieldDescriptor {
    pub is_optional: bool,
    pub is_array: bool,
    pub is_record: bool,
    pub name: String,
    pub comment: Option<String>,
}

/// The mathematical content of a [`FieldDescriptor`].
pub struct DescriptorModel {
    pub is_optional: bool,
    pub is_array: bool,
    pub is_record: bool,
    pub name: Seq<char>,
    pub comment: Option<Seq<char>>,
}

impl View for FieldDescriptor {
    type V = DescriptorModel;

    open spec fn view(&self) -> DescriptorModel {
        DescriptorModel {
            is_optional: self.is_optional,
            is_array: self.is_array,
            is_record: self.is_record,
            name: self.name@,
            comment: match self.comment {
                Some(c) => Some(c@),
                None => None,
            },
        }
    }
}

/// What the definition `s` declares: its type expression decoded, and its
/// comment. A definition without a type fails before one with a malformed
/// type, and that before one with a malformed comment.
pub open spec fn decoded(s: Seq<char>) -> Result<DescriptorModel, DecodeError> {
    match definition_match(s) {
        Err(e) => Err(e),
        Ok(d) => match type_match(d.raw_type) {
            None => Err(DecodeError::MalformedType),
            Some(m) => match comment_match(d.remaining) {
                None => Err(DecodeError::MalformedComment),
                Some(c) => Ok(
                    DescriptorModel {
                        is_optional: m.is_optional,
                        is_array: m.is_array,
                        is_record: m.is_record,
                        name: m.name,
                        comment: c.comment,
                    },
                ),
            },
        },
    }
}

/// Decodes one field definition.
pub fn decode(definition: &str) -> (r: Result<FieldDescriptor, DecodeError>)
    ensures
        match decoded(definition@) {
            Ok(d) => r matches Ok(got) && got@ == d,
            Err(e) => r matches Err(f) && f == e,
        },
{
    let (remaining, raw_type) = match parse_type_from_definition(definition) {
        Ok(parts) => parts,
        Err(e) => {
            return Err(e);
        },
    };
    let props = match parse_type(raw_type) {
        Ok((_, props)) => props,
        Err(e) => {
            return Err(e);
        },
    };
    let comment = match parse_comment(remaining) {
        Ok((_, Some(text))) => Some(text.to_owned()),
        Ok((_, None)) => None,
        Err(e) => {
            return Err(e);
        },
    };
    Ok(
        FieldDescriptor {
            is_optional: props.is_optional,
            is_array: props.is_array,
            is_record: props.is_record,
            name: props.name.to_owned(),
            comment,
        },
    )
}

/// One of the wrappers that set a flag.
pub enum Wrapper {
    Optional,
    ArrayOf,
    SetOf,
}

impl Wrapper {
    /// The text that opens the wrapper.
    pub open spec fn lead(self) -> Seq<char> {
        match self {
            Wrapper::Optional => "option<"@,
            Wrapper::ArrayOf => "array<"@,
            Wrapper::SetOf => "set<"@,
        }
    }
}

/// The type name `name` inside the wrappers `ws`, the outermost first.
pub open spec fn wrapped(ws: Seq<Wrapper>, name: Seq<char>) -> Seq<char>
    decreases ws.len(),
{
    if ws.len() == 0 {
        name
    } else {
        ws[0].lead() + wrapped(ws.skip(1), name) + seq!['>']
    }
}

/// Whether one of `ws` is `option<..>`.
pub open spec fn has_option(ws: Seq<Wrapper>) -> bool
    decreases ws.len(),
{
    ws.len() > 0 && (ws[0] is Optional || has_option(ws.skip(1)))
}

/// Whether one of `ws` is `array<..>` or `set<..>`.
pub open spec fn has_collection(ws: Seq<Wrapper>) -> bool
    decreases ws.len(),
{
    ws.len() > 0 && (ws[0] is ArrayOf || ws[0] is SetOf || has_collection(ws.skip(1)))
}

/// A text made of letters up to its last character, which is `<`.
#[verifier::opaque]
spec fn is_lead(l: Seq<char>) -> bool {
    &&& l.len() > 0
    &&& l.last() == '<'
    &&& forall|i: int| 0 <= i < l.len() - 1 ==> is_letter(#[trigger] l[i])
}

/// The four leads are leads, and the three wrappers begin with these letters.
proof fn lemma_leads()
    ensures
        is_lead("option<"@),
        is_lead("array<"@),
        is_lead("set<"@),
        is_lead("record<"@),
        "option<"@.len() > 0 && "option<"@[0] == 'o',
        "array<"@.len() > 0 && "array<"@[0] == 'a',
        "set<"@.len() > 0 && "set<"@[0] == 's',
{
    reveal(is_lead);
    reveal_strlit("option<");
    reveal_strlit("array<");
    reveal_strlit("set<");
    reveal_strlit("record<");
}

/// A name made of letters, followed by neither a letter nor `<`, does not
/// begin with a lead.
proof fn lemma_name_is_no_lead(name: Seq<char>, tail: Seq<char>, l: Seq<char>)
    requires
        is_lead(l),
        forall|i: int| 0 <= i < name.len() ==> is_letter(#[trigger] name[i]),
        tail.len() == 0 || (!is_letter(tail[0]) && tail[0] != '<'),
    ensures
        after(name + tail, l) is None,
{
    reveal(is_lead);
    let s = name + tail;
    if l.is_prefix_of(s) {
        let k = l.len() - 1;
        assert(s[k] == l[k]);
        if k < name.len() {
            assert(is_letter(name[k]));
        } else {
            let j = name.len() as int;
            assert(s[j] == l[j]);
            assert(s[j] == tail[0]);
        }
    }
}

/// The match of a bare name.
proof fn lemma_bare_name(name: Seq<char>, tail: Seq<char>)
    requires
        name.len() > 0,
        forall|i: int| 0 <= i < name.len() ==> is_letter(#[trigger] name[i]),
        tail.len() == 0 || (!is_letter(tail[0]) && tail[0] != '<'),
    ensures
        type_match(name + tail) == Some(
            TypeMatch { is_optional: false, is_array: false, is_record: false, name, rest: tail },
        ),
{
    let s = name + tail;
    lemma_leads();
    lemma_name_is_no_lead(name, tail, "option<"@);
    lemma_name_is_no_lead(name, tail, "array<"@);
    lemma_name_is_no_lead(name, tail, "set<"@);
    lemma_name_is_no_lead(name, tail, "record<"@);
    lemma_letters_exact(s, name.len() as int);
    assert(s.take(name.len() as int) =~= name);
    assert(s.skip(name.len() as int) =~= tail);
}

/// A text that begins with one character does not begin with a lead that
/// begins with another.
proof fn lemma_other_lead(s: Seq<char>, l: Seq<char>)
    requires
        s.len() > 0,
        l.len() > 0,
        s[0] != l[0],
    ensures
        after(s, l) is None,
{
    if l.is_prefix_of(s) {
        assert(s[0] == l[0]);
    }
}

/// The match of one wrapper around an expression whose match is known.
proof fn lemma_wrapper_step(w: Wrapper, inner: Seq<char>, tail: Seq<char>, m: TypeMatch)
    requires
        type_match(inner + (seq!['>'] + tail)) == Some(m),
        m.rest == seq!['>'] + tail,
    ensures
        type_match(w.lead() + inner + seq!['>'] + tail) == Some(
            TypeMatch {
                is_optional: m.is_optional || w is Optional,
                is_array: m.is_array || w is ArrayOf || w is SetOf,
                rest: tail,
                ..m
            },
        ),
{
    lemma_leads();
    let lead = w.lead();
    let behind = seq!['>'] + tail;
    let s = lead + inner + seq!['>'] + tail;
    assert(lead.is_prefix_of(s));
    assert(s.skip(lead.len() as int) =~= inner + behind);
    assert(after(s, lead) == Some(inner + behind));
    assert(run_outside(behind, closing()) == 0) by {
        assert(closing()[0] == '>');
    }
    assert(behind.skip(0) =~= behind);
    assert(behind.skip(1) =~= tail);
    assert(closed(Some(m), false) == Some(TypeMatch { rest: tail, ..m }));
    assert(closed(Some(m), true) == Some(TypeMatch { rest: tail, ..m }));
    assert(s[0] == lead[0]);
    match w {
        Wrapper::Optional => {},
        Wrapper::ArrayOf => {
            lemma_other_lead(s, "option<"@);
        },
        Wrapper::SetOf => {
            lemma_other_lead(s, "option<"@);
            lemma_other_lead(s, "array<"@);
        },
    }
}

/// The choice is committed. Behind the opening text of a wrapper the
/// expression is that wrapper around what follows, closed, and nothing
/// else: it has no match where what follows has none or the closing `>` is
/// missing. Behind `record<` it is a reference, and has no match where no
/// table is named or the closing `>` is missing. The keyword is never read
/// as a plain type name there.
pub proof fn lemma_choice_is_committed(w: Wrapper, inner: Seq<char>)
    ensures
        type_match(w.lead() + inner) == flagged(
            closed(type_match(inner), !(w is Optional)),
            w is Optional,
            !(w is Optional),
        ),
        type_match(inner) is None ==> type_match(w.lead() + inner) is None,
        type_match("record<"@ + inner) == record_match("record<"@ + inner),
{
    lemma_leads();
    reveal_strlit("record<");
    let s = w.lead() + inner;
    assert(w.lead().is_prefix_of(s));
    assert(s.skip(w.lead().len() as int) =~= inner);
    assert(s[0] == w.lead()[0]);
    match w {
        Wrapper::Optional => {},
        Wrapper::ArrayOf => {
            lemma_other_lead(s, "option<"@);
        },
        Wrapper::SetOf => {
            lemma_other_lead(s, "option<"@);
            lemma_other_lead(s, "array<"@);
        },
    }
    let r = "record<"@ + inner;
    assert("record<"@.is_prefix_of(r));
    assert(r[0] == "record<"@[0]);
    lemma_other_lead(r, "option<"@);
    lemma_other_lead(r, "array<"@);
    lemma_other_lead(r, "set<"@);
}

/// Wrappers round-trip: a type name made of letters inside any nesting of
/// `option<..>`, `array<..>` and `set<..>` decodes to that name, optional
/// exactly if one of the wrappers is `option<..>`, an array exactly if one is
/// `array<..>` or `set<..>`, and never a record; what follows the expression
/// is left over, as long as it starts with neither a letter nor `<`.
pub proof fn lemma_wrappers_round_trip(ws: Seq<Wrapper>, name: Seq<char>, tail: Seq<char>)
    requires
        name.len() > 0,
        forall|i: int| 0 <= i < name.len() ==> is_letter(#[trigger] name[i]),
        tail.len() == 0 || (!is_letter(tail[0]) && tail[0] != '<'),
    ensures
        type_match(wrapped(ws, name) + tail) == Some(
            TypeMatch {
                is_optional: has_option(ws),
                is_array: has_collection(ws),
                is_record: false,
                name,
                rest: tail,
            },
        ),
    decreases ws.len(),
{
    if ws.len() == 0 {
        lemma_bare_name(name, tail);
    } else {
        let inner = wrapped(ws.skip(1), name);
        let behind = seq!['>'] + tail;
        lemma_wrappers_round_trip(ws.skip(1), name, behind);
        let m = type_match(inner + behind)->0;
        lemma_wrapper_step(ws[0], inner, tail, m);
        assert(wrapped(ws, name) + tail =~= ws[0].lead() + inner + seq!['>'] + tail);
    }
}

/// The comment is found whatever stands before and behind its clause: a
/// non-empty text without a quote, in single quotes behind the first
/// `COMMENT` keyword and a space, is the comment, and what follows the
/// closing quote is left over.
pub proof fn lemma_comment_is_found(before: Seq<char>, text: Seq<char>, behind: Seq<char>)
    requires
        text.len() > 0,
        !text.contains('\''),
        first_occurrence(before + "COMMENT '"@ + text + "'"@ + behind, "COMMENT"@, 0) == Some(
            before.len() as int,
        ),
    ensures
        comment_match(before + "COMMENT '"@ + text + "'"@ + behind) == Some(
            CommentMatch { comment: Some(text), rest: behind },
        ),
{
    reveal_strlit("COMMENT '");
    reveal_strlit("COMMENT ");
    reveal_strlit("'");
    let s = before + "COMMENT '"@ + text + "'"@ + behind;
    let at = before.len() as int;
    let clause = s.skip(at);
    assert(clause =~= "COMMENT '"@ + text + "'"@ + behind);
    assert("COMMENT "@.is_prefix_of(clause));
    let t = clause.skip("COMMENT "@.len() as int);
    assert(t =~= "'"@ + text + "'"@ + behind);
    let body = t.skip(1);
    assert(body =~= text + "'"@ + behind);
    assert(quote()[0] == '\'');
    assert forall|j: int| 0 <= j < text.len() implies !quote().contains(#[trigger] body[j]) by {
        assert(body[j] == text[j]);
        assert(text.contains(text[j]));
    }
    assert(body[text.len() as int] == '\'');
    lemma_run_outside_exact(body, quote(), text.len() as int);
    assert(body.take(text.len() as int) =~= text);
    assert(body.skip(text.len() as int + 1) =~= behind);
}

} // verus!
