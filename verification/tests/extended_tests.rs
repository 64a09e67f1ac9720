use lexer::extended::scan_extended;
use lexer::extended::AtSignIdent;
use lexer::extended::ScanError;
use lexer::extended::Token as ExtToken;
use lexer::Lexer;
use lexer::Token;

fn lex(s: &str) -> Vec<Token> {
    let mut lexer = Lexer::new(String::from(s));
    lexer.tokenize()
}

fn scan(s: &str) -> Result<Vec<ExtToken>, ScanError> {
    scan_extended(&lex(s))
}

#[test]
fn comment_extraction() {
    let tokens = scan("# hello world\n").unwrap();
    assert_eq!(
        tokens,
        vec![ExtToken::HashTag(String::from("hello world")), ExtToken::Newline]
    );
}

#[test]
fn comment_trimming() {
    let tokens = scan("#   spaced   out  ").unwrap();
    assert_eq!(tokens, vec![ExtToken::HashTag(String::from("spaced   out"))]);

    let tokens = scan("#\n").unwrap();
    assert_eq!(
        tokens,
        vec![ExtToken::HashTag(String::from("")), ExtToken::Newline]
    );
}

#[test]
fn directive_type_recognised() {
    let r = AtSignIdent::from_str_with_ident(String::from("type"), String::from("forward"));
    assert_eq!(r, Ok(AtSignIdent::Type(String::from("forward"))));
}

#[test]
fn directive_include_recognised() {
    let r = AtSignIdent::from_str_with_ident(String::from("include"), String::from("common.conf"));
    assert_eq!(r, Ok(AtSignIdent::Include(String::from("common.conf"))));
}

#[test]
fn directive_unknown_refused() {
    let r = AtSignIdent::from_str_with_ident(String::from("foo"), String::from("bar"));
    assert_eq!(r, Err(String::from("Unknown @ sign identifier: foo")));
}

#[test]
fn at_sign_directive_scanned() {
    let tokens = scan("@type   forward  \n").unwrap();
    assert_eq!(
        tokens,
        vec![
            ExtToken::AtSign(AtSignIdent::Type(String::from("forward"))),
            ExtToken::Newline
        ]
    );
}

#[test]
fn at_sign_include_path() {
    let tokens = scan("@include /etc/fluent/common.conf\n").unwrap();
    assert_eq!(
        tokens,
        vec![
            ExtToken::AtSign(AtSignIdent::Include(String::from("/etc/fluent/common.conf"))),
            ExtToken::Newline
        ]
    );
}

#[test]
fn unknown_directive_error() {
    let r = scan("@foo bar\n");
    assert_eq!(
        r,
        Err(ScanError::UnknownDirective(String::from(
            "Unknown @ sign identifier: foo"
        )))
    );
}

#[test]
fn bare_at_sign_error() {
    let r = scan("@ type\n");
    assert_eq!(
        r,
        Err(ScanError::UnknownDirective(String::from(
            "Unknown @ sign identifier: "
        )))
    );
}

#[test]
fn port_value_parsed() {
    let tokens = scan("port 24224\n").unwrap();
    assert_eq!(tokens, vec![ExtToken::Port(24224), ExtToken::Newline]);

    let tokens = scan("port 0").unwrap();
    assert_eq!(tokens, vec![ExtToken::Port(0)]);

    let tokens = scan("port   65535").unwrap();
    assert_eq!(tokens, vec![ExtToken::Port(65535)]);
}

#[test]
fn port_value_out_of_range() {
    assert_eq!(
        scan("port 65536"),
        Err(ScanError::ValueOutOfRange(String::from("65536")))
    );
    assert_eq!(
        scan("port 99999\n"),
        Err(ScanError::ValueOutOfRange(String::from("99999")))
    );
}

#[test]
fn port_value_not_a_number() {
    assert_eq!(
        scan("port forward"),
        Err(ScanError::NotANumber(String::from("forward")))
    );
    assert_eq!(
        scan("port 24x"),
        Err(ScanError::NotANumber(String::from("24x")))
    );
    assert_eq!(scan("port <"), Err(ScanError::NotANumber(String::from("<"))));
    assert_eq!(scan("port"), Err(ScanError::NotANumber(String::from(""))));
    assert_eq!(scan("port  "), Err(ScanError::NotANumber(String::from(""))));
}

#[test]
fn extended_end_to_end() {
    let input = "<source>\n  @type forward\n  port 24224\n</source>";
    let tokens = scan(input).unwrap();
    assert_eq!(
        tokens,
        vec![
            ExtToken::LeftAngle,
            ExtToken::Source,
            ExtToken::RightAngle,
            ExtToken::Newline,
            ExtToken::AtSign(AtSignIdent::Type(String::from("forward"))),
            ExtToken::Newline,
            ExtToken::Port(24224),
            ExtToken::Newline,
            ExtToken::LeftAngle,
            ExtToken::ForwardSlash,
            ExtToken::Source,
            ExtToken::RightAngle,
        ]
    );
}

#[test]
fn plain_tokens_pass_through() {
    let tokens = scan("key=value;{[(.)]}").unwrap();
    assert_eq!(
        tokens,
        vec![
            ExtToken::Identifier(String::from("key")),
            ExtToken::Equals,
            ExtToken::Identifier(String::from("value")),
            ExtToken::Semicolon,
            ExtToken::LeftCurly,
            ExtToken::LeftBracket,
            ExtToken::LeftParen,
            ExtToken::Dot,
            ExtToken::RightParen,
            ExtToken::RightBracket,
            ExtToken::RightCurly,
        ]
    );
}

#[test]
fn whitespace_dropped_outside_comments() {
    let tokens = scan("a b").unwrap();
    assert_eq!(
        tokens,
        vec![
            ExtToken::Identifier(String::from("a")),
            ExtToken::Identifier(String::from("b")),
        ]
    );
}
