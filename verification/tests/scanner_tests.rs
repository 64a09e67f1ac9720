use lexer::scanner::render;
use lexer::Lexer;
use lexer::Literal;
use lexer::Token;
use lexer::TokenTypeStateMarker;

fn lit(s: &str) -> Token {
    Token::Identifier(Literal(String::from(s)))
}

fn lex(s: &str) -> Vec<Token> {
    let mut lexer = Lexer::new(String::from(s));
    lexer.tokenize()
}

#[test]
fn test_tokenize() {
    let input = "
<match pattern>
  @type forward
  <buffer>
    @type file
    path /path/to/buffer/forward
  </buffer>
</match>
"
    .to_string();

    let mut lexer = Lexer::new(input);
    let tokens = lexer.tokenize();

    assert_eq!(tokens[0], Token::Newline);

    assert_eq!(tokens[1], Token::LeftAngle);
    assert_eq!(tokens[2], Token::Match);
    assert_eq!(tokens[3], Token::Whitespace);
    assert_eq!(tokens[4], lit("pattern"));
    assert_eq!(tokens[5], Token::RightAngle);
    assert_eq!(tokens[6], Token::Newline);

    assert_eq!(tokens[7], Token::Whitespace);
    assert_eq!(tokens[8], Token::Whitespace);
    assert_eq!(tokens[9], Token::AtSign);
    assert_eq!(tokens[10], lit("type"));
    assert_eq!(tokens[11], Token::Whitespace);
    assert_eq!(tokens[12], lit("forward"));
    assert_eq!(tokens[13], Token::Newline);

    assert_eq!(tokens[14], Token::Whitespace);
    assert_eq!(tokens[15], Token::Whitespace);
    assert_eq!(tokens[16], Token::LeftAngle);
    assert_eq!(tokens[17], Token::Buffer);
    assert_eq!(tokens[18], Token::RightAngle);
    assert_eq!(tokens[19], Token::Newline);

    assert_eq!(tokens[20], Token::Whitespace);
    assert_eq!(tokens[21], Token::Whitespace);
    assert_eq!(tokens[22], Token::Whitespace);
    assert_eq!(tokens[23], Token::Whitespace);
    assert_eq!(tokens[24], Token::AtSign);
    assert_eq!(tokens[25], lit("type"));
    assert_eq!(tokens[26], Token::Whitespace);
    assert_eq!(tokens[27], lit("file"));
    assert_eq!(tokens[28], Token::Newline);

    assert_eq!(tokens[29], Token::Whitespace);
    assert_eq!(tokens[30], Token::Whitespace);
    assert_eq!(tokens[31], Token::Whitespace);
    assert_eq!(tokens[32], Token::Whitespace);
    assert_eq!(tokens[33], lit("path"));
    assert_eq!(tokens[34], Token::Whitespace);
    assert_eq!(tokens[35], Token::ForwardSlash);
    assert_eq!(tokens[36], lit("path"));
    assert_eq!(tokens[37], Token::ForwardSlash);
    assert_eq!(tokens[38], lit("to"));
    assert_eq!(tokens[39], Token::ForwardSlash);
    // registered as a keyword, will be resolved at parser level
    assert_eq!(tokens[40], Token::Buffer);
    assert_eq!(tokens[41], Token::ForwardSlash);
    assert_eq!(tokens[42], lit("forward"));
    assert_eq!(tokens[43], Token::Newline);

    assert_eq!(tokens[44], Token::Whitespace);
    assert_eq!(tokens[45], Token::Whitespace);
    assert_eq!(tokens[46], Token::LeftAngle);
    assert_eq!(tokens[47], Token::ForwardSlash);
    assert_eq!(tokens[48], Token::Buffer);
    assert_eq!(tokens[49], Token::RightAngle);
    assert_eq!(tokens[50], Token::Newline);

    assert_eq!(tokens[51], Token::LeftAngle);
    assert_eq!(tokens[52], Token::ForwardSlash);
    assert_eq!(tokens[53], Token::Match);
    assert_eq!(tokens[54], Token::RightAngle);
    assert_eq!(tokens[55], Token::Newline);
}

#[test]
fn round_trip_config_document() {
    let input = "
<match pattern>
  @type forward
  <buffer>
    @type file
    path /path/to/buffer/forward
  </buffer>
</match>
";
    assert_eq!(render(&lex(input)), input);
}

#[test]
fn round_trip_punctuation_mix() {
    let inputs = [
        "a.b{x}[y](z),;:=#\"\\",
        "   ",
        ".",
        "@type forward",
        "key = value\nnext:line",
        "unicode\u{00e9}identifier stays whole",
        "<<>>//\\\\",
        "ports record buffers",
    ];
    for input in inputs {
        assert_eq!(render(&lex(input)), input);
    }
}

#[test]
fn classify_idempotent() {
    let first = Token::infer_keyword("buffer");
    let second = Token::infer_keyword("buffer");
    assert_eq!(first, second);
    assert_eq!(first, Token::Buffer);

    let third = Token::infer_keyword("pattern");
    let fourth = Token::infer_keyword("pattern");
    assert_eq!(third, fourth);
    assert_eq!(third, lit("pattern"));
}

#[test]
fn keyword_exactness() {
    assert_eq!(Token::infer_keyword("ports"), lit("ports"));
    assert_eq!(Token::infer_keyword("port"), Token::Port);
    assert_eq!(Token::infer_keyword("por"), lit("por"));
    assert_eq!(Token::infer_keyword("Port"), lit("Port"));
    assert_eq!(Token::infer_keyword("bufferx"), lit("bufferx"));
}

#[test]
fn all_keywords_recognised() {
    assert_eq!(Token::infer_keyword("port"), Token::Port);
    assert_eq!(Token::infer_keyword("source"), Token::Source);
    assert_eq!(Token::infer_keyword("match"), Token::Match);
    assert_eq!(Token::infer_keyword("filter"), Token::Filter);
    assert_eq!(Token::infer_keyword("system"), Token::System);
    assert_eq!(Token::infer_keyword("label"), Token::Label);
    assert_eq!(Token::infer_keyword("worker"), Token::Worker);
    assert_eq!(Token::infer_keyword("record"), Token::Record);
    assert_eq!(Token::infer_keyword("buffer"), Token::Buffer);
}

#[test]
fn positional_keyword_ambiguity() {
    let tokens = lex("/path/to/buffer/forward");
    let expected = vec![
        Token::ForwardSlash,
        lit("path"),
        Token::ForwardSlash,
        lit("to"),
        Token::ForwardSlash,
        Token::Buffer,
        Token::ForwardSlash,
        lit("forward"),
    ];
    assert_eq!(tokens, expected);
}

#[test]
fn line_counting() {
    let mut lexer = Lexer::new(String::from("one\ntwo\nthree\n"));
    lexer.tokenize();
    assert_eq!(lexer.current_line(), 4);

    let mut lexer = Lexer::new(String::from("no newline here"));
    lexer.tokenize();
    assert_eq!(lexer.current_line(), 1);

    let mut lexer = Lexer::new(String::from("\n\n\n"));
    lexer.tokenize();
    assert_eq!(lexer.current_line(), 4);
}

#[test]
fn end_to_end_scenario() {
    let input = "<source>\n  @type forward\n  port 24224\n</source>";
    let tokens = lex(input);
    let expected = vec![
        Token::LeftAngle,
        Token::Source,
        Token::RightAngle,
        Token::Newline,
        Token::Whitespace,
        Token::Whitespace,
        Token::AtSign,
        lit("type"),
        Token::Whitespace,
        lit("forward"),
        Token::Newline,
        Token::Whitespace,
        Token::Whitespace,
        Token::Port,
        Token::Whitespace,
        lit("24224"),
        Token::Newline,
        Token::LeftAngle,
        Token::ForwardSlash,
        Token::Source,
        Token::RightAngle,
    ];
    assert_eq!(tokens, expected);
    assert_eq!(render(&tokens), input);
}

#[test]
fn identifier_run_at_end_of_input() {
    assert_eq!(lex("abc"), vec![lit("abc")]);
    assert_eq!(lex("x"), vec![lit("x")]);
    assert_eq!(lex(">trailing"), vec![Token::RightAngle, lit("trailing")]);
}

#[test]
fn single_character_inputs() {
    assert_eq!(lex("."), vec![Token::Dot]);
    assert_eq!(lex("\n"), vec![Token::Newline]);
    assert_eq!(lex(" "), vec![Token::Whitespace]);
    assert_eq!(lex("\\"), vec![Token::BackSlash]);
    assert_eq!(lex("\""), vec![Token::Quote]);
}

#[test]
fn punctuation_predicates_agree() {
    for c in ['.', '\n', ' ', '<', '>', '{', '}', '(', ')', '[', ']', ',', ';', ':', '=', '@',
        '#', '"', '/', '\\']
    {
        assert!(Token::is_non_ident(&c));
        assert!(!Token::is_ident(&c));
    }
    for c in ['a', 'Z', '0', '_', '-', '\'', '\t', '\u{00e9}'] {
        assert!(!Token::is_non_ident(&c));
        assert!(Token::is_ident(&c));
    }
}

#[test]
fn literal_text_conversions() {
    let l = Literal::from_text(String::from("forward"));
    assert_eq!(l, Literal(String::from("forward")));
    assert_eq!(l.to_text(), String::from("forward"));
}

#[test]
fn render_every_token_spelling() {
    let tokens = vec![
        Token::Dot,
        Token::Newline,
        Token::Whitespace,
        lit("name"),
        Token::LeftAngle,
        Token::RightAngle,
        Token::LeftCurly,
        Token::RightCurly,
        Token::LeftParen,
        Token::RightParen,
        Token::LeftBracket,
        Token::RightBracket,
        Token::Comma,
        Token::Semicolon,
        Token::Colon,
        Token::Equals,
        Token::AtSign,
        Token::HashTag,
        Token::Quote,
        Token::ForwardSlash,
        Token::BackSlash,
        Token::Port,
        Token::Source,
        Token::Match,
        Token::Filter,
        Token::System,
        Token::Label,
        Token::Worker,
        Token::Record,
        Token::Buffer,
    ];
    assert_eq!(
        render(&tokens),
        ".\n name<>{}()[],;:=@#\"/\\portsourcematchfiltersystemlabelworkerrecordbuffer"
    );
}
