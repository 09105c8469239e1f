use srs_cli::editor::{parse, template};
use srs_cli::error::Error;

#[test]
fn template_puts_a_line_of_dashes_between_front_and_back() {
    assert_eq!(template("hola", "hello"), "hola\n----------\nhello\n");
    assert_eq!(template("", ""), "\n----------\n\n");
}

#[test]
fn parse_reads_back_what_the_template_holds() {
    assert_eq!(
        parse(&template("hola", "hello")),
        Ok(("hola".to_string(), "hello".to_string()))
    );
    assert_eq!(
        parse(&template("two\nlines", "")),
        Ok(("two\nlines".to_string(), String::new()))
    );
}

#[test]
fn parse_trims_white_space() {
    assert_eq!(
        parse("  \n hola \t\n----------\n\n  hello\n\n"),
        Ok(("hola".to_string(), "hello".to_string()))
    );
}

#[test]
fn parse_parts_at_the_first_divider() {
    assert_eq!(
        parse("a\n----------\nb\n----------\nc"),
        Ok(("a".to_string(), "b\n----------\nc".to_string()))
    );
    assert_eq!(
        parse("a\n------------\nb"),
        Ok(("a".to_string(), "--\nb".to_string()))
    );
}

#[test]
fn parse_misses_the_divider() {
    assert_eq!(parse("hola\nhello\n"), Err(Error::MissingDivider));
    assert_eq!(parse("hola\n---------\nhello\n"), Err(Error::MissingDivider));
    assert_eq!(parse(""), Err(Error::MissingDivider));
}

#[test]
fn parse_wants_a_front() {
    assert_eq!(parse(&template("", "hello")), Err(Error::EmptyFront));
    assert_eq!(parse(" \n\t----------\nhello"), Err(Error::EmptyFront));
}
