use std::time::Instant;

use command_parser::{Command, ParseError, Parser};

fn parameter<'a>(c: &'a Command, key: &str) -> Option<&'a str> {
    c.parameters.iter().find(|(k, _)| k == key).map(|(_, v)| v.as_str())
}

#[test]
fn parse_test() {
    let p = Parser::new('!', '-');
    let command_string = r##"!foo arg1 "long arg 2" -opt -opt -key1:val1 -key2:"long val2""##;

    let command = Command {
        prefix: '!',
        option_prefix: '-',
        name: "foo".to_string(),
        arguments: vec!["arg1".to_string(), "long arg 2".to_string()],
        options: vec!["opt".to_string()],
        parameters: vec![
            ("key1".to_string(), "val1".to_string()),
            ("key2".to_string(), "long val2".to_string()),
        ],
    };

    assert_eq!(p.parse(command_string).unwrap(), command);
}

#[test]
fn time_test() {
    let p = Parser::new('!', '-');
    let command_string = r##"!foo arg1 "long arg 2" -opt -opt -key1:val1 -key2:"long val2""##;

    let now = Instant::now();

    for _ in 0..100000 {
        let _ = p.parse(command_string);
    }

    println!("{}", now.elapsed().as_micros());

    let p = Parser::new('!', '-');
    let command_string = r##"just a normal sentence"##;

    let now = Instant::now();

    for _ in 0..100000 {
        let _ = p.parse(command_string);
    }

    println!("{}", now.elapsed().as_micros());
}

#[test]
fn plain_sentence_is_not_a_command() {
    let p = Parser::new('!', '-');
    assert_eq!(p.parse("just a normal sentence"), Err(ParseError::PrefixError(0, 'j')));
    assert_eq!(p.parse("?foo"), Err(ParseError::PrefixError(0, '?')));
}

#[test]
fn space_after_prefix_is_a_name_error() {
    let p = Parser::new('!', '-');
    assert_eq!(p.parse("! foo"), Err(ParseError::NameError(1, ' ')));
    assert_eq!(p.parse("! "), Err(ParseError::NameError(1, ' ')));
}

#[test]
fn name_is_first_word() {
    let p = Parser::new('!', '-');
    assert_eq!(p.parse("!hello world").unwrap().name, "hello");
    assert_eq!(p.parse("!hello").unwrap().name, "hello");
    assert_eq!(p.parse("!a-b:c  x").unwrap().name, "a-b:c");
}

#[test]
fn quoted_argument_keeps_spaces() {
    let p = Parser::new('!', '-');
    let c = p.parse(r#"!x "a b c""#).unwrap();
    assert_eq!(c.arguments, vec!["a b c".to_string()]);
}

#[test]
fn escapes_inside_quotes() {
    let p = Parser::new('!', '-');
    let c = p.parse(r#"!x "a\"b\\c""#).unwrap();
    assert_eq!(c.arguments, vec![r#"a"b\c"#.to_string()]);
    let c = p.parse(r#"!x -k:"q\"r\\s""#).unwrap();
    assert_eq!(parameter(&c, "k"), Some(r#"q"r\s"#));
}

#[test]
fn duplicate_flags_collapse() {
    let p = Parser::new('!', '-');
    let c = p.parse("!x -f -f").unwrap();
    assert_eq!(c.options, vec!["f".to_string()]);
    let c = p.parse("!x -f -g -f ").unwrap();
    assert_eq!(c.options, vec!["f".to_string(), "g".to_string()]);
}

#[test]
fn duplicate_parameter_keeps_last_value() {
    let p = Parser::new('!', '-');
    let c = p.parse("!x -k:1 -k:2 ").unwrap();
    assert_eq!(c.parameters, vec![("k".to_string(), "2".to_string())]);
    assert_eq!(parameter(&c, "k"), Some("2"));
}

#[test]
fn unterminated_trailing_parameter_is_dropped() {
    let p = Parser::new('!', '-');
    let c = p.parse("!x -k:1 -k:2").unwrap();
    assert_eq!(parameter(&c, "k"), Some("1"));
}

#[test]
fn bad_escape_fails_at_its_character() {
    let p = Parser::new('!', '-');
    assert_eq!(p.parse(r#"!x "a\qb""#), Err(ParseError::EscapeError(6, 'q')));
    assert_eq!(p.parse(r#"!x -k:"\n""#), Err(ParseError::EscapeError(8, 'n')));
    assert_eq!(p.parse(r#"!x "\ ""#), Err(ParseError::EscapeError(5, ' ')));
}

#[test]
fn trailing_unquoted_flag_is_dropped() {
    let p = Parser::new('!', '-');
    let c = p.parse("!foo -opt").unwrap();
    assert_eq!(c.name, "foo");
    assert!(c.options.is_empty());
    let c = p.parse("!foo -opt ").unwrap();
    assert_eq!(c.options, vec!["opt".to_string()]);
}

#[test]
fn trailing_unquoted_argument_is_dropped() {
    let p = Parser::new('!', '-');
    let c = p.parse("!foo a b").unwrap();
    assert_eq!(c.arguments, vec!["a".to_string()]);
}

#[test]
fn unclosed_quote_is_dropped() {
    let p = Parser::new('!', '-');
    let c = p.parse(r#"!foo "never closed"#).unwrap();
    assert!(c.arguments.is_empty());
}

#[test]
fn empty_and_bare_prefix_lines() {
    let p = Parser::new('!', '-');
    let c = p.parse("").unwrap();
    assert_eq!(c.name, "");
    assert_eq!(c.prefix, '!');
    assert_eq!(c.option_prefix, '-');
    let c = p.parse("!").unwrap();
    assert_eq!(c.name, "");
}

#[test]
fn spaces_between_tokens_are_skipped() {
    let p = Parser::new('/', '+');
    let c = p.parse("/go   a    +v   +k:w  \"q\"").unwrap();
    assert_eq!(c.prefix, '/');
    assert_eq!(c.option_prefix, '+');
    assert_eq!(c.name, "go");
    assert_eq!(c.arguments, vec!["a".to_string(), "q".to_string()]);
    assert_eq!(c.options, vec!["v".to_string()]);
    assert_eq!(parameter(&c, "k"), Some("w"));
}

#[test]
fn empty_parameter_value_and_colon_argument() {
    let p = Parser::new('!', '-');
    let c = p.parse("!x -k: :a ").unwrap();
    assert_eq!(parameter(&c, "k"), Some(""));
    assert_eq!(c.arguments, vec![":a".to_string()]);
}

#[test]
fn positions_count_characters_not_bytes() {
    let p = Parser::new('!', '-');
    assert_eq!(p.parse(r#"!é "ü\x""#), Err(ParseError::EscapeError(6, 'x')));
    assert_eq!(p.parse("é"), Err(ParseError::PrefixError(0, 'é')));
}

#[test]
fn command_new_keeps_fields() {
    let c = Command::new(
        '!',
        '-',
        "n".to_string(),
        vec!["a".to_string()],
        vec!["o".to_string()],
        vec![("k".to_string(), "v".to_string())],
    );
    assert_eq!(c.name, "n");
    assert_eq!(c.arguments, vec!["a".to_string()]);
    assert_eq!(c.options, vec!["o".to_string()]);
    assert_eq!(c.parameters, vec![("k".to_string(), "v".to_string())]);
    let p = Parser::new('#', '~');
    assert_eq!(p.prefix, '#');
    assert_eq!(p.option_prefix, '~');
}

#[test]
fn equality_ignores_order_of_options_and_parameters() {
    let p = Parser::new('!', '-');
    let parsed = p.parse("!go -b -a -k:1 -j:2 ").unwrap();
    let built = Command::new(
        '!',
        '-',
        "go".to_string(),
        vec![],
        vec!["a".to_string(), "b".to_string()],
        vec![("j".to_string(), "2".to_string()), ("k".to_string(), "1".to_string())],
    );
    assert_eq!(parsed, built);
    let other = Command::new(
        '!',
        '-',
        "go".to_string(),
        vec![],
        vec!["a".to_string(), "b".to_string()],
        vec![("j".to_string(), "2".to_string()), ("k".to_string(), "3".to_string())],
    );
    assert_ne!(parsed, other);
    let fewer = Command::new('!', '-', "go".to_string(), vec![], vec!["a".to_string()], vec![]);
    assert_ne!(parsed, fewer);
}

#[test]
fn equality_respects_argument_order() {
    let p = Parser::new('!', '-');
    let ab = p.parse("!go a b ").unwrap();
    let ba = p.parse("!go b a ").unwrap();
    assert_ne!(ab, ba);
    assert_eq!(ab, p.parse("!go  a  b  ").unwrap());
}
