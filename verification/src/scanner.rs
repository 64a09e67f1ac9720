//! The scanning engine: a single left-to-right pass over the input with one
//! character of lookahead, emitting one token per punctuation mark and one
//! classified token per maximal identifier run.

use vstd::prelude::*;

use crate::text::push_char;
use crate::text::str_to_chars;
use crate::token::classify_spec;
use crate::token::is_punct_char;
use crate::token::punct_token_spec;
use crate::token::spelling;
use crate::token::Token;
use crate::token::TokenView;

verus! {

/// The length of the maximal identifier run at the front of `s`: the number
/// of leading characters that are not punctuation.
pub open spec fn ident_run_len(s: Seq<char>) -> nat
    decreases s.len(),
{
    if s.len() == 0 || is_punct_char(s[0]) {
        0
    } else {
        1 + ident_run_len(s.drop_first())
    }
}

pub proof fn lemma_ident_run_len_le(s: Seq<char>)
    ensures
        ident_run_len(s) <= s.len(),
    decreases s.len(),
{
    if s.len() == 0 || is_punct_char(s[0]) {
    } else {
        lemma_ident_run_len_le(s.drop_first());
    }
}

/// Every character inside the maximal identifier run is a non-punctuation
/// character.
pub proof fn lemma_ident_run_len_chars(s: Seq<char>)
    ensures
        forall|k: int| 0 <= k < ident_run_len(s) ==> !is_punct_char(#[trigger] s[k]),
    decreases s.len(),
{
    if s.len() == 0 || is_punct_char(s[0]) {
    } else {
        lemma_ident_run_len_le(s);
        lemma_ident_run_len_chars(s.drop_first());
        assert forall|k: int| 0 <= k < ident_run_len(s) implies !is_punct_char(#[trigger] s[k]) by {
            if k > 0 {
                assert(s[k] == s.drop_first()[k - 1]);
            }
        }
    }
}

/// The run length is characterised by its endpoint: `n` leading non-punctuation
/// characters, stopped by punctuation or by the end of the sequence.
pub proof fn lemma_ident_run_len_is(s: Seq<char>, n: int)
    requires
        0 <= n <= s.len(),
        forall|k: int| 0 <= k < n ==> !is_punct_char(s[k]),
        n == s.len() || is_punct_char(s[n]),
    ensures
        ident_run_len(s) == n,
    decreases n,
{
    if n == 0 {
    } else {
        assert(!is_punct_char(s[0]));
        assert(forall|k: int| 0 <= k < n - 1 ==> s.drop_first()[k] == s[k + 1]);
        lemma_ident_run_len_is(s.drop_first(), n - 1);
    }
}

/// The token sequence that a full scan of `s` denotes: punctuation characters
/// become their fixed tokens, and each maximal identifier run is classified
/// against the keyword table.
pub open spec fn scan_spec(s: Seq<char>) -> Seq<TokenView>
    decreases s.len(),
    via scan_spec_decreases
{
    if s.len() == 0 {
        Seq::empty()
    } else if is_punct_char(s[0]) {
        seq![punct_token_spec(s[0])] + scan_spec(s.drop_first())
    } else {
        let n = ident_run_len(s) as int;
        seq![classify_spec(s.take(n))] + scan_spec(s.skip(n))
    }
}

#[via_fn]
proof fn scan_spec_decreases(s: Seq<char>) {
    if s.len() > 0 && !is_punct_char(s[0]) {
        lemma_ident_run_len_le(s);
        assert(ident_run_len(s) >= 1);
    }
}

/// How many newline characters `s` contains.
pub open spec fn newline_count(s: Seq<char>) -> nat
    decreases s.len(),
{
    if s.len() == 0 {
        0
    } else {
        newline_count(s.drop_last()) + if s.last() == '\n' {
            1nat
        } else {
            0nat
        }
    }
}

pub proof fn lemma_newline_count_le(s: Seq<char>)
    ensures
        newline_count(s) <= s.len(),
    decreases s.len(),
{
    if s.len() > 0 {
        lemma_newline_count_le(s.drop_last());
    }
}

proof fn lemma_newline_count_step(s: Seq<char>, i: int)
    requires
        0 <= i < s.len(),
    ensures
        newline_count(s.take(i + 1)) == newline_count(s.take(i)) + if s[i] == '\n' {
            1int
        } else {
            0int
        },
{
    assert(s.take(i + 1).drop_last() =~= s.take(i));
    assert(s.take(i + 1).last() == s[i]);
}

proof fn lemma_newline_count_run(s: Seq<char>, i: int, j: int)
    requires
        0 <= i <= j <= s.len(),
        forall|k: int| i <= k < j ==> s[k] != '\n',
    ensures
        newline_count(s.take(j)) == newline_count(s.take(i)),
    decreases j - i,
{
    if i < j {
        lemma_newline_count_step(s, j - 1);
        lemma_newline_count_run(s, i, j - 1);
    }
}

/// The views of a token sequence.
pub open spec fn seq_view(ts: Seq<Token>) -> Seq<TokenView> {
    ts.map_values(|t: Token| t@)
}

/// Concatenation of the canonical textual forms of the given tokens.
pub open spec fn spellings(ts: Seq<TokenView>) -> Seq<char>
    decreases ts.len(),
{
    if ts.len() == 0 {
        Seq::empty()
    } else {
        spelling(ts[0]) + spellings(ts.drop_first())
    }
}

proof fn lemma_spellings_cons(t: TokenView, ts: Seq<TokenView>)
    ensures
        spellings(seq![t] + ts) == spelling(t) + spellings(ts),
{
    let c = seq![t] + ts;
    assert(c[0] == t);
    assert(c.drop_first() =~= ts);
}

pub proof fn lemma_spellings_push(ts: Seq<TokenView>, t: TokenView)
    ensures
        spellings(ts.push(t)) == spellings(ts) + spelling(t),
    decreases ts.len(),
{
    if ts.len() == 0 {
        assert(ts.push(t)[0] == t);
        assert(ts.push(t).drop_first() =~= Seq::<TokenView>::empty());
        assert(spellings(Seq::<TokenView>::empty()) == Seq::<char>::empty());
        assert(spellings(ts.push(t)) == spelling(t) + Seq::<char>::empty());
        assert(spelling(t) + Seq::<char>::empty() =~= spelling(t));
        assert(spellings(ts) + spelling(t) =~= spelling(t));
    } else {
        assert(ts.push(t)[0] == ts[0]);
        assert(ts.push(t).drop_first() =~= ts.drop_first().push(t));
        lemma_spellings_push(ts.drop_first(), t);
        assert((spelling(ts[0]) + spellings(ts.drop_first())) + spelling(t) =~= spelling(ts[0])
            + (spellings(ts.drop_first()) + spelling(t)));
    }
}

/// Law: the scan is lossless. Concatenating the canonical spelling of every
/// token that a scan emits reproduces the scanned text exactly.
pub proof fn lemma_scan_round_trip(s: Seq<char>)
    ensures
        spellings(scan_spec(s)) == s,
    decreases s.len(),
{
    if s.len() == 0 {
        assert(spellings(scan_spec(s)) =~= s);
    } else if is_punct_char(s[0]) {
        lemma_scan_round_trip(s.drop_first());
        lemma_spellings_cons(punct_token_spec(s[0]), scan_spec(s.drop_first()));
        assert(spelling(punct_token_spec(s[0])) =~= seq![s[0]]);
        assert(seq![s[0]] + s.drop_first() =~= s);
    } else {
        let n = ident_run_len(s) as int;
        lemma_ident_run_nonempty(s);
        lemma_scan_round_trip(s.skip(n));
        lemma_spellings_cons(classify_spec(s.take(n)), scan_spec(s.skip(n)));
        crate::token::lemma_classify_preserves_spelling(s.take(n));
        assert(s.take(n) + s.skip(n) =~= s);
    }
}

proof fn lemma_ident_run_nonempty(s: Seq<char>)
    requires
        s.len() > 0,
        !is_punct_char(s[0]),
    ensures
        1 <= ident_run_len(s) <= s.len(),
{
    lemma_ident_run_len_le(s);
}

/// The scanner: owns the input characters, a cursor, and the line counter.
pub struct Lexer {
    input: Vec<char>,
    pos: usize,
    line: usize,
    current: char,
}

impl Lexer {
    /// The characters the scanner was constructed over.
    pub closed spec fn input_chars(self) -> Seq<char> {
        self.input@
    }

    /// The line the cursor is on: one more than the newlines consumed so far.
    pub closed spec fn line_number(self) -> int {
        self.line as int
    }

    /// Internal consistency: the cursor is inside the input and caches the
    /// current character.
    pub closed spec fn wf(self) -> bool {
        &&& self.input@.len() > 0
        &&& self.input@.len() < usize::MAX
        &&& (self.pos as int) < self.input@.len()
        &&& self.current == self.input@[self.pos as int]
    }

    /// A scanner that has not consumed anything yet.
    pub closed spec fn fresh(self) -> bool {
        &&& self.wf()
        &&& self.pos == 0
        &&& self.line == 1
    }

    /// Construct a scanner over `input`, cursor at the first character,
    /// line counter at one. The input must not be empty.
    pub fn new(input: String) -> (r: Lexer)
        requires
            input@.len() > 0,
            input@.len() < usize::MAX,
        ensures
            r.input_chars() == input@,
            r.fresh(),
    {
        let chars = str_to_chars(input.as_str());
        let current = chars[0];
        Lexer { input: chars, pos: 0, line: 1, current }
    }

    /// The current line number.
    pub fn current_line(&self) -> (n: usize)
        ensures
            n as int == self.line_number(),
    {
        self.line
    }

    fn is_at_end(&self) -> (r: bool)
        ensures
            r == (self.pos as int >= self.input@.len()),
    {
        self.pos >= self.input.len()
    }

    fn peek(&self) -> (c: char)
        requires
            self.wf(),
        ensures
            c == if self.pos + 1 < self.input@.len() {
                self.input@[self.pos as int + 1]
            } else {
                '\0'
            },
    {
        if self.pos + 1 < self.input.len() {
            self.input[self.pos + 1]
        } else {
            '\0'
        }
    }

    fn advance(&mut self) -> (c: char)
        requires
            old(self).wf(),
    ensures
            final(self).input@ == old(self).input@,
            final(self).line == old(self).line,
            final(self).wf(),
            old(self).pos + 1 < old(self).input@.len() ==> final(self).pos == old(self).pos + 1,
            old(self).pos + 1 >= old(self).input@.len() ==> *final(self) == *old(self),
            c == final(self).current,
    {
        if self.pos + 1 >= self.input.len() {
            return self.current;
        }
        self.pos = self.pos + 1;
        self.current = self.input[self.pos];
        self.current
    }

    /// Consume the maximal identifier run that starts at the cursor and
    /// classify it. The cursor is left on the last character of the run.
    fn parse_ident(&mut self) -> (t: Token)
        requires
            old(self).wf(),
            !is_punct_char(old(self).input@[old(self).pos as int]),
        ensures
            final(self).input@ == old(self).input@,
            final(self).line == old(self).line,
            final(self).wf(),
            final(self).pos + 1 == old(self).pos + ident_run_len(
                old(self).input@.skip(old(self).pos as int),
            ),
            t@ == classify_spec(
                old(self).input@.subrange(old(self).pos as int, final(self).pos + 1),
            ),
    {
        let ghost s = self.input@;
        let ghost start = self.pos as int;
        let mut ident = String::new();
        proof {
            assert(ident@ =~= s.subrange(start, start));
        }
        while Token::is_ident(&self.current)
            invariant_except_break
                self.input@ == s,
                self.line == old(self).line,
                0 <= start,
                start <= self.pos as int,
                (self.pos as int) < s.len(),
                s.len() < usize::MAX,
                self.current == s[self.pos as int],
                ident@ == s.subrange(start, self.pos as int),
                forall|k: int| start <= k <= self.pos as int ==> !is_punct_char(s[k]),
            ensures
                self.input@ == s,
                self.line == old(self).line,
                0 <= start,
                start <= self.pos as int,
                (self.pos as int) < s.len(),
                self.current == s[self.pos as int],
                ident@ == s.subrange(start, self.pos as int + 1),
                forall|k: int| start <= k <= self.pos as int ==> !is_punct_char(s[k]),
                self.pos as int + 1 == s.len() || is_punct_char(s[self.pos as int + 1]),
            decreases s.len() - self.pos as int,
        {
            push_char(&mut ident, self.current);
            proof {
                assert(ident@ =~= s.subrange(start, self.pos as int + 1));
            }
            if self.pos + 1 < self.input.len() && Token::is_ident(&self.peek()) {
                self.advance();
            } else {
                break;
            }
        }
        proof {
            let run = s.skip(start);
            let n = self.pos as int + 1 - start;
            assert(forall|k: int| 0 <= k < n ==> run[k] == s[start + k]);
            assert(n == run.len() || is_punct_char(run[n]));
            lemma_ident_run_len_is(run, n);
            assert(s.subrange(start, start + n) =~= ident@);
        }
        Token::infer_keyword(ident.as_str())
    }

    /// Scan the whole input and return its token sequence, advancing the line
    /// counter over every newline consumed. The result is exactly the token
    /// sequence that `scan_spec` denotes, and the final line number is one
    /// more than the number of newlines in the input.
    pub fn tokenize(&mut self) -> (tokens: Vec<Token>)
        requires
            old(self).fresh(),
        ensures
            final(self).input_chars() == old(self).input_chars(),
            seq_view(tokens@) == scan_spec(old(self).input_chars()),
            final(self).line_number() == 1 + newline_count(old(self).input_chars()),
    {
        let ghost s = self.input@;
        let mut tokens: Vec<Token> = Vec::new();
        proof {
            assert(s.skip(0) =~= s);
            assert(s.take(0) =~= Seq::<char>::empty());
            assert(seq_view(tokens@) =~= Seq::<TokenView>::empty());
            assert(seq_view(tokens@) + scan_spec(s) =~= scan_spec(s));
        }
        while !self.is_at_end()
            invariant_except_break
                self.input@ == s,
                self.wf(),
                self.line as int == 1 + newline_count(s.take(self.pos as int)),
                seq_view(tokens@) + scan_spec(s.skip(self.pos as int)) == scan_spec(s),
            ensures
                self.input@ == s,
                self.line as int == 1 + newline_count(s),
                seq_view(tokens@) == scan_spec(s),
            decreases s.len() - self.pos as int,
        {
            let ghost pos0 = self.pos as int;
            let ghost toks0 = tokens@;
            let c = self.current;
            proof {
                lemma_newline_count_le(s.take(pos0));
            }
            if Token::is_non_ident(&c) {
                let t: Token = match c {
                    '.' => Token::Dot,
                    '\n' => Token::Newline,
                    ' ' => Token::Whitespace,
                    '<' => Token::LeftAngle,
                    '>' => Token::RightAngle,
                    '{' => Token::LeftCurly,
                    '}' => Token::RightCurly,
                    '@' => Token::AtSign,
                    '#' => Token::HashTag,
                    '"' => Token::Quote,
                    '/' => Token::ForwardSlash,
                    '\\' => Token::BackSlash,
                    '(' => Token::LeftParen,
                    ')' => Token::RightParen,
                    '[' => Token::LeftBracket,
                    ']' => Token::RightBracket,
                    ',' => Token::Comma,
                    ';' => Token::Semicolon,
                    ':' => Token::Colon,
                    '=' => Token::Equals,
                    _ => {
                        proof {
                            assert(false);
                        }
                        Token::Dot
                    },
                };
                if c == '\n' {
                    self.line = self.line + 1;
                }
                tokens.push(t);
                proof {
                    assert(t@ == punct_token_spec(c));
                    let rest = s.skip(pos0);
                    assert(rest[0] == c);
                    assert(rest.drop_first() =~= s.skip(pos0 + 1));
                    assert(scan_spec(rest) == seq![punct_token_spec(c)] + scan_spec(
                        s.skip(pos0 + 1),
                    ));
                    assert(seq_view(tokens@) =~= seq_view(toks0).push(t@));
                    assert(seq_view(toks0).push(t@) + scan_spec(s.skip(pos0 + 1)) =~= seq_view(
                        toks0,
                    ) + (seq![punct_token_spec(c)] + scan_spec(s.skip(pos0 + 1))));
                    lemma_newline_count_step(s, pos0);
                }
            } else {
                let t = self.parse_ident();
                tokens.push(t);
                proof {
                    let rest = s.skip(pos0);
                    let n = ident_run_len(rest) as int;
                    lemma_ident_run_nonempty(rest);
                    assert(self.pos as int + 1 == pos0 + n);
                    assert(rest.take(n) =~= s.subrange(pos0, pos0 + n));
                    assert(rest.skip(n) =~= s.skip(pos0 + n));
                    assert(scan_spec(rest) == seq![classify_spec(s.subrange(pos0, pos0 + n))]
                        + scan_spec(s.skip(pos0 + n)));
                    assert(seq_view(tokens@) =~= seq_view(toks0).push(t@));
                    assert(seq_view(toks0).push(t@) + scan_spec(s.skip(pos0 + n)) =~= seq_view(
                        toks0,
                    ) + (seq![t@] + scan_spec(s.skip(pos0 + n))));
                    assert(forall|k: int|
                        pos0 <= k < pos0 + n ==> !is_punct_char(#[trigger] s[k])) by {
                        lemma_ident_run_len_chars(rest);
                        assert(forall|k: int|
                            pos0 <= k < pos0 + n ==> #[trigger] s[k] == rest[k - pos0]);
                    }
                    lemma_newline_count_run(s, pos0, pos0 + n);
                }
            }
            if self.pos + 1 >= self.input.len() {
                proof {
                    assert(s.skip(self.pos as int + 1) =~= Seq::<char>::empty());
                    assert(s.take(self.pos as int + 1) =~= s);
                    assert(seq_view(tokens@) + scan_spec(s.skip(self.pos as int + 1)) =~= seq_view(
                        tokens@,
                    ));
                }
                break;
            }
            self.advance();
        }
        tokens
    }
}

/// The canonical textual form of a token sequence: each token's spelling,
/// concatenated in order. Applying this to a scan's output reproduces the
/// scanned input exactly.
pub fn render(tokens: &Vec<Token>) -> (r: String)
    ensures
        r@ == spellings(seq_view(tokens@)),
{
    let ghost ts = seq_view(tokens@);
    let mut r = String::new();
    let mut i: usize = 0;
    while i < tokens.len()
        invariant
            i <= tokens@.len(),
            ts == seq_view(tokens@),
            r@ == spellings(ts.take(i as int)),
        decreases tokens@.len() - i,
    {
        let piece = tokens[i].spelling_text();
        r.append(piece.as_str());
        proof {
            assert(ts.take(i + 1 as int) =~= ts.take(i as int).push(ts[i as int]));
            lemma_spellings_push(ts.take(i as int), ts[i as int]);
            assert(ts[i as int] == tokens@[i as int]@);
        }
        i = i + 1;
    }
    proof {
        assert(ts.take(tokens@.len() as int) =~= ts);
    }
    r
}

impl Token {
    /// The exact characters this token stands for.
    pub fn spelling_text(&self) -> (r: String)
        ensures
            r@ == spelling(self@),
    {
        proof {
            reveal_strlit(".");
            reveal_strlit("\n");
            reveal_strlit(" ");
            reveal_strlit("<");
            reveal_strlit(">");
            reveal_strlit("{");
            reveal_strlit("}");
            reveal_strlit("(");
            reveal_strlit(")");
            reveal_strlit("[");
            reveal_strlit("]");
            reveal_strlit(",");
            reveal_strlit(";");
            reveal_strlit(":");
            reveal_strlit("=");
            reveal_strlit("@");
            reveal_strlit("#");
            reveal_strlit("\"");
            reveal_strlit("/");
            reveal_strlit("\\");
            reveal_strlit("port");
            reveal_strlit("source");
            reveal_strlit("match");
            reveal_strlit("filter");
            reveal_strlit("system");
            reveal_strlit("label");
            reveal_strlit("worker");
            reveal_strlit("record");
            reveal_strlit("buffer");
        }
        match self {
            Token::Dot => String::from_str("."),
            Token::Newline => String::from_str("\n"),
            Token::Whitespace => String::from_str(" "),
            Token::Identifier(l) => l.0.clone(),
            Token::LeftAngle => String::from_str("<"),
            Token::RightAngle => String::from_str(">"),
            Token::LeftCurly => String::from_str("{"),
            Token::RightCurly => String::from_str("}"),
            Token::LeftParen => String::from_str("("),
            Token::RightParen => String::from_str(")"),
            Token::LeftBracket => String::from_str("["),
            Token::RightBracket => String::from_str("]"),
            Token::Comma => String::from_str(","),
            Token::Semicolon => String::from_str(";"),
            Token::Colon => String::from_str(":"),
            Token::Equals => String::from_str("="),
            Token::AtSign => String::from_str("@"),
            Token::HashTag => String::from_str("#"),
            Token::Quote => String::from_str("\""),
            Token::ForwardSlash => String::from_str("/"),
            Token::BackSlash => String::from_str("\\"),
            Token::Port => String::from_str("port"),
            Token::Source => String::from_str("source"),
            Token::Match => String::from_str("match"),
            Token::Filter => String::from_str("filter"),
            Token::System => String::from_str("system"),
            Token::Label => String::from_str("label"),
            Token::Worker => String::from_str("worker"),
            Token::Record => String::from_str("record"),
            Token::Buffer => String::from_str("buffer"),
        }
    }
}

} // verus!
