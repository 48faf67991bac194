use nom::branch::alt;
use nom::bytes::complete::{is_not, tag, take_until1};
use nom::character::complete::alpha1;
use nom::combinator::{opt, rest};
use nom::sequence::{delimited, pair};
use nom::IResult;
use surreal_ts_core::parser::{
    decode, parse_comment, parse_type, parse_type_from_definition, DecodeError, FieldDescriptor,
};

fn props(input: &str) -> Option<(String, bool, bool, bool, String)> {
    match parse_type(input) {
        Ok((rest, p)) => {
            Some((p.name.to_string(), p.is_optional, p.is_array, p.is_record, rest.to_string()))
        }
        Err(_) => None,
    }
}

fn found(name: &str, optional: bool, array: bool, record: bool, rest: &str) -> Option<(String, bool, bool, bool, String)> {
    Some((name.to_string(), optional, array, record, rest.to_string()))
}

#[test]
fn parse_type_reads_a_bare_name() {
    assert_eq!(props("number"), found("number", false, false, false, ""));
    assert_eq!(props("number;"), found("number", false, false, false, ";"));
    assert_eq!(props("Number DEFAULT 1"), found("Number", false, false, false, " DEFAULT 1"));
}

#[test]
fn parse_type_reads_wrappers() {
    assert_eq!(props("option<number>"), found("number", true, false, false, ""));
    assert_eq!(props("array<number>"), found("number", false, true, false, ""));
    assert_eq!(props("set<number>"), found("number", false, true, false, ""));
    assert_eq!(props("option<array<number>>;"), found("number", true, true, false, ";"));
    assert_eq!(props("array<option<number>>"), found("number", true, true, false, ""));
    assert_eq!(props("set<set<number>>"), found("number", false, true, false, ""));
    assert_eq!(props("option<option<bool>> x"), found("bool", true, false, false, " x"));
}

#[test]
fn parse_type_skips_what_follows_the_items_of_an_array() {
    assert_eq!(props("array<number, 5>"), found("number", false, true, false, ""));
    assert_eq!(props("set<string,10>;"), found("string", false, true, false, ";"));
    assert_eq!(props("option<array<record<user>, 3>>"), found("user", true, true, true, ""));
}

#[test]
fn parse_type_reads_the_first_table_of_a_record() {
    assert_eq!(props("record<user>"), found("user", false, false, true, ""));
    assert_eq!(props("record<user | post>"), found("user", false, false, true, ""));
    assert_eq!(props("record<user|post>;"), found("user", false, false, true, ";"));
    assert_eq!(props("record<user, post>"), found("user", false, false, true, ""));
    assert_eq!(props("option<record<user_profile>>"), found("user_profile", true, false, true, ""));
}

#[test]
fn parse_type_rejects_a_wrapper_whose_inner_type_matches_nothing() {
    for input in ["option<123>", "option<>", "array<>", "set<1>", "array<option<>>", "option< number>"] {
        assert_eq!(parse_type(input).map(|_| ()), Err(DecodeError::MalformedType), "on {:?}", input);
    }
}

#[test]
fn parse_type_rejects_a_wrapper_that_is_not_closed() {
    for input in ["option<number", "array<number", "set<number, 3", "option<array<number>", "option<number;>"] {
        assert_eq!(parse_type(input).map(|_| ()), Err(DecodeError::MalformedType), "on {:?}", input);
    }
}

#[test]
fn parse_type_rejects_a_reference_without_a_table_or_an_end() {
    for input in ["record<>", "record<user", "record< user>", "option<record<>>"] {
        assert_eq!(parse_type(input).map(|_| ()), Err(DecodeError::MalformedType), "on {:?}", input);
    }
}

#[test]
fn a_keyword_without_an_opening_bracket_is_a_plain_name() {
    assert_eq!(props("array"), found("array", false, false, false, ""));
    assert_eq!(props("option;"), found("option", false, false, false, ";"));
    assert_eq!(props("record >"), found("record", false, false, false, " >"));
    assert_eq!(props("set x"), found("set", false, false, false, " x"));
}

#[test]
fn parse_type_rejects_what_is_no_type() {
    assert_eq!(parse_type("").map(|_| ()), Err(DecodeError::MalformedType));
    assert_eq!(parse_type("<number>").map(|_| ()), Err(DecodeError::MalformedType));
    assert_eq!(parse_type("1number").map(|_| ()), Err(DecodeError::MalformedType));
    assert_eq!(parse_type(" number").map(|_| ()), Err(DecodeError::MalformedType));
    assert_eq!(parse_type("étoile").map(|_| ()), Err(DecodeError::MalformedType));
}

#[test]
fn parse_type_stops_at_the_first_character_that_is_no_letter() {
    assert_eq!(props("numéro"), found("num", false, false, false, "éro"));
    assert_eq!(props("a1"), found("a", false, false, false, "1"));
}

#[test]
fn comment_is_extracted() {
    assert_eq!(
        parse_comment("TYPE number COMMENT 'hello';"),
        Ok((";", Some("hello")))
    );
    assert_eq!(parse_comment("TYPE number;"), Ok(("TYPE number;", None)));
    assert_eq!(
        parse_comment("COMMENT 'first' DEFAULT 5 ASSERT $value > 0"),
        Ok((" DEFAULT 5 ASSERT $value > 0", Some("first")))
    );
    assert_eq!(
        parse_comment("DEFAULT 5 COMMENT 'late one' PERMISSIONS FULL"),
        Ok((" PERMISSIONS FULL", Some("late one")))
    );
}

#[test]
fn comment_without_a_clause_is_none() {
    assert_eq!(parse_comment(""), Ok(("", None)));
    assert_eq!(parse_comment("x COMMENTS 'a'"), Ok(("COMMENTS 'a'", None)));
    assert_eq!(parse_comment("COMMENT"), Ok(("COMMENT", None)));
}

#[test]
fn comment_that_is_malformed_is_rejected() {
    assert_eq!(parse_comment("COMMENT ''"), Err(DecodeError::MalformedComment));
    assert_eq!(parse_comment("COMMENT hello"), Err(DecodeError::MalformedComment));
    assert_eq!(parse_comment("a COMMENT 'open"), Err(DecodeError::MalformedComment));
    assert_eq!(parse_comment("COMMENT "), Err(DecodeError::MalformedComment));
}

#[test]
fn definition_is_cut_at_the_first_clause() {
    assert_eq!(
        parse_type_from_definition("DEFINE FIELD a ON t TYPE number;"),
        Ok(("", "number;"))
    );
    assert_eq!(
        parse_type_from_definition("DEFINE FIELD a ON t TYPE number COMMENT 'x';"),
        Ok(("COMMENT 'x';", "number "))
    );
    assert_eq!(
        parse_type_from_definition("DEFINE FIELD a ON t TYPE number DEFAULT 5 COMMENT 'x'"),
        Ok(("DEFAULT 5 COMMENT 'x'", "number "))
    );
    assert_eq!(
        parse_type_from_definition("TYPE option<string> VALUE 'a' ASSERT true PERMISSIONS FULL"),
        Ok(("VALUE 'a' ASSERT true PERMISSIONS FULL", "option<string> "))
    );
    assert_eq!(
        parse_type_from_definition("x TYPE bool PERMISSIONS FULL"),
        Ok(("PERMISSIONS FULL", "bool "))
    );
}

#[test]
fn definition_without_a_type_is_rejected() {
    assert_eq!(parse_type_from_definition(""), Err(DecodeError::MissingType));
    assert_eq!(
        parse_type_from_definition("DEFINE FIELD a ON t;"),
        Err(DecodeError::MissingType)
    );
    assert_eq!(
        parse_type_from_definition("DEFINE FIELD a ON t TYPE"),
        Err(DecodeError::MalformedType)
    );
    assert_eq!(
        parse_type_from_definition("DEFINE FIELD TYPES ON t TYPE number"),
        Err(DecodeError::MalformedType)
    );
}

#[test]
fn decode_reads_type_and_comment() {
    assert_eq!(
        decode("TYPE option<array<number>>;"),
        Ok(FieldDescriptor {
            is_optional: true,
            is_array: true,
            is_record: false,
            name: "number".to_string(),
            comment: None,
        })
    );
    assert_eq!(
        decode("DEFINE FIELD a ON t TYPE record<user> DEFAULT user:1 COMMENT 'the owner';"),
        Ok(FieldDescriptor {
            is_optional: false,
            is_array: false,
            is_record: true,
            name: "user".to_string(),
            comment: Some("the owner".to_string()),
        })
    );
}

#[test]
fn decode_reports_the_first_failure() {
    assert_eq!(decode("COMMENT ''"), Err(DecodeError::MissingType));
    assert_eq!(decode("TYPE COMMENT 'x'"), Err(DecodeError::MalformedType));
    assert_eq!(decode("TYPE 1 COMMENT ''"), Err(DecodeError::MalformedType));
    assert_eq!(decode("TYPE option<123>;"), Err(DecodeError::MalformedType));
    assert_eq!(decode("TYPE array<number COMMENT 'x'"), Err(DecodeError::MalformedType));
    assert_eq!(decode("TYPE number COMMENT ''"), Err(DecodeError::MalformedComment));
}

#[test]
fn wrappers_round_trip_up_to_depth_two() {
    let wrappers = ["", "option<", "array<", "set<"];
    for outer in wrappers {
        for inner in wrappers {
            for name in ["number", "string", "bool", "datetime"] {
                let mut text = String::new();
                text.push_str(outer);
                text.push_str(inner);
                text.push_str(name);
                if !inner.is_empty() {
                    text.push('>');
                }
                if !outer.is_empty() {
                    text.push('>');
                }
                let definition = format!("TYPE {};", text);
                let decoded = decode(&definition).unwrap();
                assert_eq!(decoded.name, name);
                assert_eq!(decoded.is_optional, outer == "option<" || inner == "option<");
                assert_eq!(
                    decoded.is_array,
                    ["array<", "set<"].contains(&outer) || ["array<", "set<"].contains(&inner)
                );
                assert!(!decoded.is_record);
            }
        }
    }
}

fn reference_type(input: &str) -> IResult<&str, (bool, bool, bool, &str)> {
    let (input, inner) = opt(delimited(tag("option<"), reference_type, tag(">")))(input)?;
    if let Some((_, array, record, name)) = inner {
        return Ok((input, (true, array, record, name)));
    }
    let (input, inner) =
        opt(delimited(tag("array<"), pair(reference_type, opt(is_not(">"))), tag(">")))(input)?;
    if let Some(((optional, _, record, name), _)) = inner {
        return Ok((input, (optional, true, record, name)));
    }
    let (input, inner) =
        opt(delimited(tag("set<"), pair(reference_type, opt(is_not(">"))), tag(">")))(input)?;
    if let Some(((optional, _, record, name), _)) = inner {
        return Ok((input, (optional, true, record, name)));
    }
    let (input, inner) = opt(delimited(tag("record<"), is_not(">"), tag(">")))(input)?;
    if let Some(reference) = inner {
        return Ok((input, (false, false, true, reference)));
    }
    let (input, name) = alpha1(input)?;
    Ok((input, (false, false, false, name)))
}

fn reference_comment(input: &str) -> IResult<&str, Option<&str>> {
    let (input, _) = opt(take_until1("COMMENT"))(input)?;
    let (input, res) = opt(tag("COMMENT "))(input)?;
    if res.is_some() {
        let (input, comment) = delimited(tag("'"), is_not("'"), tag("'"))(input)?;
        Ok((input, Some(comment)))
    } else {
        Ok((input, None))
    }
}

fn reference_definition(input: &str) -> IResult<&str, &str> {
    let (input, _) = take_until1("TYPE")(input)?;
    let (input, _) = tag("TYPE ")(input)?;
    alt((
        take_until1("COMMENT"),
        take_until1("DEFAULT"),
        take_until1("VALUE"),
        take_until1("ASSERT"),
        take_until1("PERMISSIONS"),
        rest,
    ))(input)
}

// The combinators backtrack: where a wrapper is opened and not completed they
// read the keyword as a plain name. The decoder commits and rejects such an
// expression, so the two are compared on expressions that complete every
// wrapper they open, and apart on those that do not.
#[test]
fn the_decoder_commits_where_the_combinators_backtrack() {
    for input in ["option<123>", "option<number", "record<>", "option<>", "option<array<number>"] {
        let lenient = reference_type(input).ok().map(|(rest, (_, _, _, n))| (n, rest));
        let keyword = &input[..input.find('<').unwrap()];
        assert_eq!(lenient, Some((keyword, &input[keyword.len()..])), "on {:?}", input);
        assert_eq!(props(input), None, "on {:?}", input);
    }
}

#[test]
fn type_grammar_agrees_with_the_combinators() {
    let inputs = [
        "number",
        "number;",
        "option<number>",
        "array<number, 5> rest",
        "set<option<record<user>>>;",
        "record<user>",
        "array<array<array<int>>>",
        "",
        "<",
        "array",
        "objectobject<",
        "array<record<a>b>c",
        "set<x y z>",
    ];
    for input in inputs {
        let expected = reference_type(input)
            .ok()
            .map(|(rest, (o, a, r, n))| (n.to_string(), o, a, r, rest.to_string()));
        assert_eq!(props(input), expected, "on {:?}", input);
    }
}

#[test]
fn comment_agrees_with_the_combinators() {
    let inputs = [
        "",
        "TYPE number;",
        "TYPE number COMMENT 'hello';",
        "COMMENT 'a' COMMENT 'b'",
        "xCOMMENT 'a'",
        "COMMENT ''",
        "COMMENT",
        "COMMENT x",
        "COMMENTS 'x'",
        "a COMMENT 'unterminated",
        "DEFAULT 'COMMENT' COMMENT 'x'",
    ];
    for input in inputs {
        let expected = reference_comment(input).ok();
        assert_eq!(parse_comment(input).ok(), expected, "on {:?}", input);
    }
}

#[test]
fn definition_agrees_with_the_combinators_on_single_clauses() {
    let inputs = [
        "DEFINE FIELD a ON t TYPE number;",
        "DEFINE FIELD a ON t TYPE number COMMENT 'x';",
        "DEFINE FIELD a ON t TYPE option<string> DEFAULT 'x';",
        "DEFINE FIELD a ON t TYPE bool ASSERT $value;",
        "DEFINE FIELD a ON t TYPE bool PERMISSIONS FULL",
        "DEFINE FIELD a ON t TYPE int VALUE 5",
        "DEFINE FIELD a ON t",
        "DEFINE FIELD a ON t TYPE",
        "DEFINE FIELD a ON t TYPE ",
    ];
    for input in inputs {
        let expected = reference_definition(input).ok();
        assert_eq!(parse_type_from_definition(input).ok(), expected, "on {:?}", input);
    }
}
