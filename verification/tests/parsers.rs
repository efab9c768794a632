use parcos::parsers::{any_of, exact, identifier, whitespace, whitespaces, zero_or_more};

#[test]
fn parse_exact() {
    let parse_foo = exact("foo");

    assert_eq!(Ok(("bar", "foo")), parse_foo.parse("foobar"));
    assert_eq!(Ok(("", "foo")), parse_foo.parse("foo"));
    assert!(parse_foo.parse("bar").is_err());
    assert!(parse_foo.parse("").is_err());
}

#[test]
fn parse_any_of() {
    let parse_plus = exact("+");
    let parse_minus = exact("-");
    let parse_plus_or_minus = any_of(vec![parse_plus, parse_minus]);

    assert_eq!(Ok(("", "+")), parse_plus_or_minus.parse("+"));
    assert_eq!(Ok(("", "-")), parse_plus_or_minus.parse("-"));
    assert_eq!(Ok(("-", "+")), parse_plus_or_minus.parse("+-"));
    assert_eq!(Ok(("+", "-")), parse_plus_or_minus.parse("-+"));

    assert!(parse_plus_or_minus.parse("").is_err());
    assert!(parse_plus_or_minus.parse("foo bar").is_err());
}

#[test]
fn parse_whitespace() {
    assert_eq!(Ok(("", " ")), whitespace(" "));
    assert_eq!(Ok(("", "\t")), whitespace("\t"));
    assert_eq!(Ok(("", "\n")), whitespace("\n"));
    assert_eq!(Ok((" \n", "\t")), whitespace("\t \n"));
    assert!(whitespace("foo bar").is_err());
    assert!(whitespace("").is_err());
}

#[test]
fn parse_whitespaces() {
    assert_eq!(Ok(("", " ")), whitespaces(" "));
    assert_eq!(Ok(("", "\t")), whitespaces("\t"));
    assert_eq!(Ok(("", "\n")), whitespaces("\n"));
    assert_eq!(Ok(("", "\t \n")), whitespaces("\t \n"));
    assert_eq!(Ok(("foo bar", "")), whitespaces("foo bar"));
    assert_eq!(Ok(("", "")), whitespaces(""));
}

#[test]
fn parse_identifier() {
    assert_eq!(Ok((" bar", "foo")), identifier("foo bar"));
    assert_eq!(Ok(("", "foobar")), identifier("foobar"));
    assert_eq!(Ok(("", "_foobar")), identifier("_foobar"));
    assert_eq!(Ok(("", "foobar0")), identifier("foobar0"));
    assert_eq!(Ok(("", "foo_bar_1")), identifier("foo_bar_1"));
    assert!(identifier("!foobar").is_err());
    assert!(identifier("").is_err());
}

#[test]
fn parse_exact_error_message() {
    let parse_foo = exact("foo");

    assert_eq!(
        Err(String::from("expected `foo`, got unexpected `bar`")),
        parse_foo.parse("bar")
    );
}

#[test]
fn parse_any_of_error_message() {
    let parse_plus_or_minus = any_of(vec![exact("+"), exact("-")]);

    assert_eq!(
        Err(String::from(
            "couldn't match any of:\nexpected `+`, got unexpected `foo`\nexpected `-`, got unexpected `foo`"
        )),
        parse_plus_or_minus.parse("foo")
    );
}

#[test]
fn parse_zero_or_more_never_fails() {
    let parse_pluses = zero_or_more(exact("+"));

    assert_eq!(Ok(("", "++")), parse_pluses.parse("++"));
    assert_eq!(Ok(("x", "")), parse_pluses.parse("x"));
    assert_eq!(Ok(("", "")), parse_pluses.parse(""));
    assert_eq!(Ok(("-x", "++")), parse_pluses.parse("++-x"));
}

#[test]
fn parse_zero_or_more_empty_literal_stops() {
    let parse_nothing = zero_or_more(exact(""));

    assert_eq!(Ok(("abc", "")), parse_nothing.parse("abc"));
}

#[test]
fn parse_identifier_error_message() {
    assert_eq!(
        Err(String::from("expected `IDENTIFIER`, got unexpected end of input")),
        identifier("!foobar")
    );
}

#[test]
fn parse_handles_multibyte_characters() {
    assert_eq!(Ok(("", "héllo")), identifier("héllo"));
    assert_eq!(Ok(("x", "é")), exact("é").parse("éx"));
}

#[test]
fn parse_exact_empty_literal() {
    assert_eq!(Ok(("abc", "")), exact("").parse("abc"));
    assert_eq!(Ok(("", "")), exact("").parse(""));
}
