//! The token model: the closed vocabulary of lexical units, the reserved
//! keyword table, and the punctuation set that delimits identifier runs.

use vstd::prelude::*;

verus! {

/// The owned text payload carried by an identifier token.
#[derive(Debug, PartialEq, Eq, Clone)]
pub struct Literal(pub String);

impl View for Literal {
    type V = Seq<char>;

    open spec fn view(&self) -> Seq<char> {
        self.0@
    }
}

/// Payload types that convert to and from their textual content.
pub trait TokenTypeStateMarker: Sized {
    spec fn text(&self) -> Seq<char>;

    fn to_text(&self) -> (r: String)
        ensures
            r@ == self.text(),
    ;

    fn from_text(s: String) -> (r: Self)
        ensures
            r.text() == s@,
    ;
}

impl TokenTypeStateMarker for Literal {
    open spec fn text(&self) -> Seq<char> {
        self@
    }

    fn to_text(&self) -> (r: String) {
        self.0.clone()
    }

    fn from_text(s: String) -> (r: Self) {
        Literal(s)
    }
}

/// A classified, indivisible lexical unit.
///
/// Punctuation tokens stand for one fixed character each; keyword tokens
/// stand for their exact reserved spelling; an identifier token carries an
/// arbitrary run of non-punctuation characters.
#[derive(Debug, PartialEq, Eq, Clone)]
pub enum Token {
    Dot,
    Newline,
    Whitespace,
    Identifier(Literal),
    LeftAngle,
    RightAngle,
    LeftCurly,
    RightCurly,
    LeftParen,
    RightParen,
    LeftBracket,
    RightBracket,
    Comma,
    Semicolon,
    Colon,
    Equals,
    AtSign,
    HashTag,
    Quote,
    ForwardSlash,
    BackSlash,
    Port,
    Source,
    Match,
    Filter,
    System,
    Label,
    Worker,
    Record,
    Buffer,
}

/// The mathematical image of a `Token`: identical shape, with the identifier
/// payload abstracted to its character sequence.
pub enum TokenView {
    Dot,
    Newline,
    Whitespace,
    Identifier(Seq<char>),
    LeftAngle,
    RightAngle,
    LeftCurly,
    RightCurly,
    LeftParen,
    RightParen,
    LeftBracket,
    RightBracket,
    Comma,
    Semicolon,
    Colon,
    Equals,
    AtSign,
    HashTag,
    Quote,
    ForwardSlash,
    BackSlash,
    Port,
    Source,
    Match,
    Filter,
    System,
    Label,
    Worker,
    Record,
    Buffer,
}

impl View for Token {
    type V = TokenView;

    open spec fn view(&self) -> TokenView {
        match self {
            Token::Dot => TokenView::Dot,
            Token::Newline => TokenView::Newline,
            Token::Whitespace => TokenView::Whitespace,
            Token::Identifier(l) => TokenView::Identifier(l@),
            Token::LeftAngle => TokenView::LeftAngle,
            Token::RightAngle => TokenView::RightAngle,
            Token::LeftCurly => TokenView::LeftCurly,
            Token::RightCurly => TokenView::RightCurly,
            Token::LeftParen => TokenView::LeftParen,
            Token::RightParen => TokenView::RightParen,
            Token::LeftBracket => TokenView::LeftBracket,
            Token::RightBracket => TokenView::RightBracket,
            Token::Comma => TokenView::Comma,
            Token::Semicolon => TokenView::Semicolon,
            Token::Colon => TokenView::Colon,
            Token::Equals => TokenView::Equals,
            Token::AtSign => TokenView::AtSign,
            Token::HashTag => TokenView::HashTag,
            Token::Quote => TokenView::Quote,
            Token::ForwardSlash => TokenView::ForwardSlash,
            Token::BackSlash => TokenView::BackSlash,
            Token::Port => TokenView::Port,
            Token::Source => TokenView::Source,
            Token::Match => TokenView::Match,
            Token::Filter => TokenView::Filter,
            Token::System => TokenView::System,
            Token::Label => TokenView::Label,
            Token::Worker => TokenView::Worker,
            Token::Record => TokenView::Record,
            Token::Buffer => TokenView::Buffer,
        }
    }
}

/// Membership in the fixed punctuation set. This single definition is the
/// source of truth both for the scanner's one-character dispatch and for
/// where an identifier run ends.
pub open spec fn is_punct_char(c: char) -> bool {
    ||| c == '.'
    ||| c == '\n'
    ||| c == ' '
    ||| c == '<'
    ||| c == '>'
    ||| c == '{'
    ||| c == '}'
    ||| c == '('
    ||| c == ')'
    ||| c == '['
    ||| c == ']'
    ||| c == ','
    ||| c == ';'
    ||| c == ':'
    ||| c == '='
    ||| c == '@'
    ||| c == '#'
    ||| c == '"'
    ||| c == '/'
    ||| c == '\\'
}

/// The punctuation token that stands for the character `c`.
/// Meaningful only when `is_punct_char(c)` holds.
pub open spec fn punct_token_spec(c: char) -> TokenView {
    if c == '.' {
        TokenView::Dot
    } else if c == '\n' {
        TokenView::Newline
    } else if c == ' ' {
        TokenView::Whitespace
    } else if c == '<' {
        TokenView::LeftAngle
    } else if c == '>' {
        TokenView::RightAngle
    } else if c == '{' {
        TokenView::LeftCurly
    } else if c == '}' {
        TokenView::RightCurly
    } else if c == '(' {
        TokenView::LeftParen
    } else if c == ')' {
        TokenView::RightParen
    } else if c == '[' {
        TokenView::LeftBracket
    } else if c == ']' {
        TokenView::RightBracket
    } else if c == ',' {
        TokenView::Comma
    } else if c == ';' {
        TokenView::Semicolon
    } else if c == ':' {
        TokenView::Colon
    } else if c == '=' {
        TokenView::Equals
    } else if c == '@' {
        TokenView::AtSign
    } else if c == '#' {
        TokenView::HashTag
    } else if c == '"' {
        TokenView::Quote
    } else if c == '/' {
        TokenView::ForwardSlash
    } else {
        TokenView::BackSlash
    }
}

/// The canonical textual form of a token: the exact characters it stands for.
pub open spec fn spelling(t: TokenView) -> Seq<char> {
    match t {
        TokenView::Dot => seq!['.'],
        TokenView::Newline => seq!['\n'],
        TokenView::Whitespace => seq![' '],
        TokenView::Identifier(text) => text,
        TokenView::LeftAngle => seq!['<'],
        TokenView::RightAngle => seq!['>'],
        TokenView::LeftCurly => seq!['{'],
        TokenView::RightCurly => seq!['}'],
        TokenView::LeftParen => seq!['('],
        TokenView::RightParen => seq![')'],
        TokenView::LeftBracket => seq!['['],
        TokenView::RightBracket => seq![']'],
        TokenView::Comma => seq![','],
        TokenView::Semicolon => seq![';'],
        TokenView::Colon => seq![':'],
        TokenView::Equals => seq!['='],
        TokenView::AtSign => seq!['@'],
        TokenView::HashTag => seq!['#'],
        TokenView::Quote => seq!['"'],
        TokenView::ForwardSlash => seq!['/'],
        TokenView::BackSlash => seq!['\\'],
        TokenView::Port => seq!['p', 'o', 'r', 't'],
        TokenView::Source => seq!['s', 'o', 'u', 'r', 'c', 'e'],
        TokenView::Match => seq!['m', 'a', 't', 'c', 'h'],
        TokenView::Filter => seq!['f', 'i', 'l', 't', 'e', 'r'],
        TokenView::System => seq!['s', 'y', 's', 't', 'e', 'm'],
        TokenView::Label => seq!['l', 'a', 'b', 'e', 'l'],
        TokenView::Worker => seq!['w', 'o', 'r', 'k', 'e', 'r'],
        TokenView::Record => seq!['r', 'e', 'c', 'o', 'r', 'd'],
        TokenView::Buffer => seq!['b', 'u', 'f', 'f', 'e', 'r'],
    }
}

/// Whether `s` is the exact spelling of one of the nine reserved keywords.
pub open spec fn is_keyword_spelling(s: Seq<char>) -> bool {
    ||| s == spelling(TokenView::Port)
    ||| s == spelling(TokenView::Source)
    ||| s == spelling(TokenView::Match)
    ||| s == spelling(TokenView::Filter)
    ||| s == spelling(TokenView::System)
    ||| s == spelling(TokenView::Label)
    ||| s == spelling(TokenView::Worker)
    ||| s == spelling(TokenView::Record)
    ||| s == spelling(TokenView::Buffer)
}

/// Classification by spelling alone: an exact keyword match yields that
/// keyword's token; every other spelling yields an identifier carrying it.
pub open spec fn classify_spec(s: Seq<char>) -> TokenView {
    if s == spelling(TokenView::Port) {
        TokenView::Port
    } else if s == spelling(TokenView::Source) {
        TokenView::Source
    } else if s == spelling(TokenView::Match) {
        TokenView::Match
    } else if s == spelling(TokenView::Filter) {
        TokenView::Filter
    } else if s == spelling(TokenView::System) {
        TokenView::System
    } else if s == spelling(TokenView::Label) {
        TokenView::Label
    } else if s == spelling(TokenView::Worker) {
        TokenView::Worker
    } else if s == spelling(TokenView::Record) {
        TokenView::Record
    } else if s == spelling(TokenView::Buffer) {
        TokenView::Buffer
    } else {
        TokenView::Identifier(s)
    }
}

/// Law: classifying a spelling never changes it. The token that `classify_spec`
/// returns spells back exactly the characters that were classified.
pub proof fn lemma_classify_preserves_spelling(s: Seq<char>)
    ensures
        spelling(classify_spec(s)) == s,
{
}

/// Law: classification is a function of the spelling alone. Two strings with
/// the same characters classify to the same token, independent of where in an
/// input they occur or when they are classified.
pub proof fn lemma_classify_deterministic(s1: Seq<char>, s2: Seq<char>)
    requires
        s1 == s2,
    ensures
        classify_spec(s1) == classify_spec(s2),
{
}

/// Law: keyword matching is exact and whole-token. A spelling classifies to a
/// keyword token if and only if it equals one of the nine reserved spellings;
/// no prefix or extension of a keyword matches, and every non-keyword spelling
/// comes back as an identifier carrying exactly that spelling.
pub proof fn lemma_keyword_exact(s: Seq<char>)
    ensures
        is_keyword_spelling(s) <==> !(classify_spec(s) is Identifier),
        !is_keyword_spelling(s) ==> classify_spec(s) == TokenView::Identifier(s),
{
}

impl Token {
    /// Whether `c` belongs to the fixed punctuation set.
    pub fn is_non_ident(c: &char) -> (r: bool)
        ensures
            r == is_punct_char(*c),
    {
        match *c {
            '.' | '\n' | ' ' | '<' | '>' | '{' | '}' | '(' | ')' | '[' | ']' | ',' | ';' | ':'
                | '=' | '@' | '#' | '"' | '/' | '\\' => true,
            _ => false,
        }
    }

    /// Whether `c` can appear inside an identifier run: anything that is not
    /// punctuation, by exclusion.
    pub fn is_ident(c: &char) -> (r: bool)
        ensures
            r == !is_punct_char(*c),
    {
        !Self::is_non_ident(c)
    }

    /// Exact-match classification against the fixed keyword table; on a miss,
    /// the text becomes a generic identifier.
    pub fn infer_keyword(s: &str) -> (t: Token)
        ensures
            t@ == classify_spec(s@),
    {
        proof {
            reveal_strlit("port");
            reveal_strlit("source");
            reveal_strlit("match");
            reveal_strlit("filter");
            reveal_strlit("system");
            reveal_strlit("label");
            reveal_strlit("worker");
            reveal_strlit("record");
            reveal_strlit("buffer");
            assert("port"@ =~= spelling(TokenView::Port));
            assert("source"@ =~= spelling(TokenView::Source));
            assert("match"@ =~= spelling(TokenView::Match));
            assert("filter"@ =~= spelling(TokenView::Filter));
            assert("system"@ =~= spelling(TokenView::System));
            assert("label"@ =~= spelling(TokenView::Label));
            assert("worker"@ =~= spelling(TokenView::Worker));
            assert("record"@ =~= spelling(TokenView::Record));
            assert("buffer"@ =~= spelling(TokenView::Buffer));
        }
        if crate::text::str_eq(s, "port") {
            Token::Port
        } else if crate::text::str_eq(s, "source") {
            Token::Source
        } else if crate::text::str_eq(s, "match") {
            Token::Match
        } else if crate::text::str_eq(s, "filter") {
            Token::Filter
        } else if crate::text::str_eq(s, "system") {
            Token::System
        } else if crate::text::str_eq(s, "label") {
            Token::Label
        } else if crate::text::str_eq(s, "worker") {
            Token::Worker
        } else if crate::text::str_eq(s, "record") {
            Token::Record
        } else if crate::text::str_eq(s, "buffer") {
            Token::Buffer
        } else {
            Token::Identifier(Literal(String::from_str(s)))
        }
    }
}

} // verus!
