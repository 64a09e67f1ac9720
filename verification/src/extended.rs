//! The extended token model: compound tokens assembled from the flat token
//! stream. A `#` gathers the rest of its line into a comment body, an `@`
//! introduces a named directive with its arguments, and `port` carries its
//! numeric argument parsed into a 16-bit value. Whitespace separates compound
//! parts and is not itself a token at this level; newlines are kept.

use vstd::prelude::*;

use crate::scanner::lemma_spellings_push;
use crate::scanner::seq_view;
use crate::scanner::spellings;
use crate::text::str_eq;
use crate::token;

verus! {

/// A recognised `@`-prefixed directive with its argument text.
#[derive(Debug, PartialEq, Eq, Clone)]
pub enum AtSignIdent {
    Type(String),
    Include(String),
}

/// The mathematical image of an `AtSignIdent`.
pub enum AtSignIdentView {
    Type(Seq<char>),
    Include(Seq<char>),
}

impl View for AtSignIdent {
    type V = AtSignIdentView;

    open spec fn view(&self) -> AtSignIdentView {
        match self {
            AtSignIdent::Type(args) => AtSignIdentView::Type(args@),
            AtSignIdent::Include(args) => AtSignIdentView::Include(args@),
        }
    }
}

/// A token of the extended model. Punctuation, keywords and identifiers pass
/// through from the flat stream; comments, directives and port values are
/// compound.
#[derive(Debug, PartialEq, Eq, Clone)]
pub enum Token {
    Dot,
    Newline,
    Identifier(String),
    LeftAngle,
    RightAngle,
    LeftCurly,
    RightCurly,
    LeftParen,
    RightParen,
    LeftBracket,
    RightBracket,
    Comma,
    Semicolon,
    Colon,
    Equals,
    AtSign(AtSignIdent),
    HashTag(String),
    Quote,
    ForwardSlash,
    BackSlash,
    Port(u16),
    Source,
    Match,
    Filter,
    System,
    Label,
    Worker,
    Record,
    Buffer,
}

/// The mathematical image of an extended `Token`.
pub enum TokenView {
    Dot,
    Newline,
    Identifier(Seq<char>),
    LeftAngle,
    RightAngle,
    LeftCurly,
    RightCurly,
    LeftParen,
    RightParen,
    LeftBracket,
    RightBracket,
    Comma,
    Semicolon,
    Colon,
    Equals,
    AtSign(AtSignIdentView),
    HashTag(Seq<char>),
    Quote,
    ForwardSlash,
    BackSlash,
    Port(u16),
    Source,
    Match,
    Filter,
    System,
    Label,
    Worker,
    Record,
    Buffer,
}

impl View for Token {
    type V = TokenView;

    open spec fn view(&self) -> TokenView {
        match self {
            Token::Dot => TokenView::Dot,
            Token::Newline => TokenView::Newline,
            Token::Identifier(text) => TokenView::Identifier(text@),
            Token::LeftAngle => TokenView::LeftAngle,
            Token::RightAngle => TokenView::RightAngle,
            Token::LeftCurly => TokenView::LeftCurly,
            Token::RightCurly => TokenView::RightCurly,
            Token::LeftParen => TokenView::LeftParen,
            Token::RightParen => TokenView::RightParen,
            Token::LeftBracket => TokenView::LeftBracket,
            Token::RightBracket => TokenView::RightBracket,
            Token::Comma => TokenView::Comma,
            Token::Semicolon => TokenView::Semicolon,
            Token::Colon => TokenView::Colon,
            Token::Equals => TokenView::Equals,
            Token::AtSign(d) => TokenView::AtSign(d@),
            Token::HashTag(body) => TokenView::HashTag(body@),
            Token::Quote => TokenView::Quote,
            Token::ForwardSlash => TokenView::ForwardSlash,
            Token::BackSlash => TokenView::BackSlash,
            Token::Port(v) => TokenView::Port(*v),
            Token::Source => TokenView::Source,
            Token::Match => TokenView::Match,
            Token::Filter => TokenView::Filter,
            Token::System => TokenView::System,
            Token::Label => TokenView::Label,
            Token::Worker => TokenView::Worker,
            Token::Record => TokenView::Record,
            Token::Buffer => TokenView::Buffer,
        }
    }
}

/// A recoverable fault met while assembling compound tokens.
#[derive(Debug, PartialEq, Eq, Clone)]
pub enum ScanError {
    /// The argument after `port` is not a non-empty run of decimal digits.
    NotANumber(String),
    /// The argument after `port` is numeric but does not fit in 16 bits.
    ValueOutOfRange(String),
    /// The name after `@` is not a recognised directive.
    UnknownDirective(String),
}

/// The mathematical image of a `ScanError`.
pub enum ScanErrorView {
    NotANumber(Seq<char>),
    ValueOutOfRange(Seq<char>),
    UnknownDirective(Seq<char>),
}

impl View for ScanError {
    type V = ScanErrorView;

    open spec fn view(&self) -> ScanErrorView {
        match self {
            ScanError::NotANumber(text) => ScanErrorView::NotANumber(text@),
            ScanError::ValueOutOfRange(text) => ScanErrorView::ValueOutOfRange(text@),
            ScanError::UnknownDirective(text) => ScanErrorView::UnknownDirective(text@),
        }
    }
}

/// The message carried by an unknown-directive error.
pub open spec fn unknown_directive_msg(name: Seq<char>) -> Seq<char> {
    "Unknown @ sign identifier: "@ + name
}

/// Which directive a name and its argument text denote: `type` and `include`
/// are the recognised names; anything else is refused with a message naming
/// the offender.
pub open spec fn directive_spec(name: Seq<char>, args: Seq<char>) -> Result<
    AtSignIdentView,
    Seq<char>,
> {
    if name == "type"@ {
        Result::Ok(AtSignIdentView::Type(args))
    } else if name == "include"@ {
        Result::Ok(AtSignIdentView::Include(args))
    } else {
        Result::Err(unknown_directive_msg(name))
    }
}

/// The image of a directive-recognition result.
pub open spec fn directive_result_view(r: Result<AtSignIdent, String>) -> Result<
    AtSignIdentView,
    Seq<char>,
> {
    match r {
        Result::Ok(d) => Result::Ok(d@),
        Result::Err(e) => Result::Err(e@),
    }
}

impl AtSignIdent {
    /// Recognise a directive name with its argument text: `type` and
    /// `include` succeed, every other name is refused, if and only if.
    pub fn from_str_with_ident(ident: String, args: String) -> (r: Result<Self, String>)
        ensures
            directive_result_view(r) == directive_spec(ident@, args@),
    {
        if str_eq(ident.as_str(), "type") {
            Result::Ok(Self::Type(args))
        } else if str_eq(ident.as_str(), "include") {
            Result::Ok(Self::Include(args))
        } else {
            Result::Err(String::from_str("Unknown @ sign identifier: ").concat(ident.as_str()))
        }
    }
}

/// The index of the first newline token at or after `i`, or the sequence
/// length if there is none.
pub open spec fn newline_index(ts: Seq<token::TokenView>, i: int) -> int
    decreases ts.len() - i,
{
    if i < 0 || i >= ts.len() {
        ts.len() as int
    } else if ts[i] is Newline {
        i
    } else {
        newline_index(ts, i + 1)
    }
}

pub proof fn lemma_newline_index(ts: Seq<token::TokenView>, i: int)
    requires
        0 <= i <= ts.len(),
    ensures
        i <= newline_index(ts, i) <= ts.len(),
        newline_index(ts, i) < ts.len() ==> ts[newline_index(ts, i)] is Newline,
        forall|k: int| i <= k < newline_index(ts, i) ==> !((#[trigger] ts[k]) is Newline),
    decreases ts.len() - i,
{
    if i < ts.len() && !(ts[i] is Newline) {
        lemma_newline_index(ts, i + 1);
    }
}

/// The index of the first non-whitespace token at or after `i`, or the
/// sequence length if there is none.
pub open spec fn non_ws_index(ts: Seq<token::TokenView>, i: int) -> int
    decreases ts.len() - i,
{
    if i < 0 || i >= ts.len() {
        ts.len() as int
    } else if ts[i] is Whitespace {
        non_ws_index(ts, i + 1)
    } else {
        i
    }
}

pub proof fn lemma_non_ws_index(ts: Seq<token::TokenView>, i: int)
    requires
        0 <= i <= ts.len(),
    ensures
        i <= non_ws_index(ts, i) <= ts.len(),
        non_ws_index(ts, i) < ts.len() ==> !(ts[non_ws_index(ts, i)] is Whitespace),
        forall|k: int| i <= k < non_ws_index(ts, i) ==> (#[trigger] ts[k]) is Whitespace,
    decreases ts.len() - i,
{
    if i < ts.len() && ts[i] is Whitespace {
        lemma_non_ws_index(ts, i + 1);
    }
}

/// Whether a flat token is an identifier-like word: an identifier or a
/// keyword, never punctuation.
pub open spec fn is_wordlike(t: token::TokenView) -> bool {
    match t {
        token::TokenView::Identifier(_) => true,
        token::TokenView::Port => true,
        token::TokenView::Source => true,
        token::TokenView::Match => true,
        token::TokenView::Filter => true,
        token::TokenView::System => true,
        token::TokenView::Label => true,
        token::TokenView::Worker => true,
        token::TokenView::Record => true,
        token::TokenView::Buffer => true,
        _ => false,
    }
}

/// `s` without its leading space characters.
pub open spec fn trim_start_spaces(s: Seq<char>) -> Seq<char>
    decreases s.len(),
{
    if s.len() > 0 && s[0] == ' ' {
        trim_start_spaces(s.drop_first())
    } else {
        s
    }
}

/// `s` without its trailing space characters.
pub open spec fn trim_end_spaces(s: Seq<char>) -> Seq<char>
    decreases s.len(),
{
    if s.len() > 0 && s.last() == ' ' {
        trim_end_spaces(s.drop_last())
    } else {
        s
    }
}

/// `s` without leading and trailing space characters.
pub open spec fn trim_spaces(s: Seq<char>) -> Seq<char> {
    trim_start_spaces(trim_end_spaces(s))
}

proof fn lemma_trim_end_take(s: Seq<char>, hi: int)
    requires
        0 <= hi <= s.len(),
        forall|k: int| hi <= k < s.len() ==> s[k] == ' ',
        hi == 0 || s[hi - 1] != ' ',
    ensures
        trim_end_spaces(s) == s.take(hi),
    decreases s.len(),
{
    if s.len() == 0 {
        assert(s.take(0) =~= s);
    } else if s.last() == ' ' {
        assert(hi < s.len());
        assert(forall|k: int| hi <= k < s.len() - 1 ==> s.drop_last()[k] == s[k]);
        lemma_trim_end_take(s.drop_last(), hi);
        assert(s.drop_last().take(hi) =~= s.take(hi));
    } else {
        assert(hi == s.len());
        assert(s.take(hi) =~= s);
    }
}

proof fn lemma_trim_start_skip(s: Seq<char>, lo: int)
    requires
        0 <= lo <= s.len(),
        forall|k: int| 0 <= k < lo ==> s[k] == ' ',
        lo == s.len() || s[lo] != ' ',
    ensures
        trim_start_spaces(s) == s.skip(lo),
    decreases lo,
{
    if lo == 0 {
        assert(s.skip(0) =~= s);
    } else {
        assert(s[0] == ' ');
        assert(forall|k: int| 0 <= k < lo - 1 ==> s.drop_first()[k] == s[k + 1]);
        lemma_trim_start_skip(s.drop_first(), lo - 1);
        assert(s.drop_first().skip(lo - 1) =~= s.skip(lo));
    }
}

/// `s` with leading and trailing spaces removed.
pub fn trim_spaces_text(s: &str) -> (r: String)
    ensures
        r@ == trim_spaces(s@),
{
    let len = s.unicode_len();
    let mut hi: usize = len;
    while hi > 0 && s.get_char(hi - 1) == ' '
        invariant
            len == s@.len(),
            hi <= len,
            forall|k: int| hi <= k < len ==> s@[k] == ' ',
        decreases hi,
    {
        hi = hi - 1;
    }
    let mut lo: usize = 0;
    while lo < hi && s.get_char(lo) == ' '
        invariant
            len == s@.len(),
            lo <= hi <= len,
            forall|k: int| 0 <= k < lo ==> s@[k] == ' ',
        decreases hi - lo,
    {
        lo = lo + 1;
    }
    let piece = s.substring_char(lo, hi);
    proof {
        lemma_trim_end_take(s@, hi as int);
        assert(forall|k: int| 0 <= k < lo ==> s@.take(hi as int)[k] == ' ');
        assert(lo as int == s@.take(hi as int).len() || s@.take(hi as int)[lo as int] != ' ');
        lemma_trim_start_skip(s@.take(hi as int), lo as int);
        assert(s@.take(hi as int).skip(lo as int) =~= s@.subrange(lo as int, hi as int));
    }
    String::from_str(piece)
}

/// Whether `c` is a decimal digit.
pub open spec fn is_digit(c: char) -> bool {
    48 <= c as int && c as int <= 57
}

/// Whether `s` consists of decimal digits only.
pub open spec fn all_digits(s: Seq<char>) -> bool {
    forall|k: int| 0 <= k < s.len() ==> is_digit(#[trigger] s[k])
}

/// The numeric value of a run of decimal digits, most significant first.
pub open spec fn digits_value(s: Seq<char>) -> int
    decreases s.len(),
{
    if s.len() == 0 {
        0
    } else {
        digits_value(s.drop_last()) * 10 + (s.last() as int - 48)
    }
}

proof fn lemma_digits_value_nonneg(s: Seq<char>)
    requires
        all_digits(s),
    ensures
        digits_value(s) >= 0,
    decreases s.len(),
{
    if s.len() > 0 {
        assert(forall|k: int| 0 <= k < s.len() - 1 ==> s.drop_last()[k] == s[k]);
        lemma_digits_value_nonneg(s.drop_last());
    }
}

proof fn lemma_digits_value_take_le(s: Seq<char>, i: int)
    requires
        all_digits(s),
        0 <= i <= s.len(),
    ensures
        digits_value(s.take(i)) <= digits_value(s),
    decreases s.len() - i,
{
    if i < s.len() {
        assert(s.take(i + 1).drop_last() =~= s.take(i));
        assert(forall|k: int| 0 <= k < i ==> s.take(i)[k] == s[k]);
        lemma_digits_value_nonneg(s.take(i));
        assert(digits_value(s.take(i + 1)) == digits_value(s.take(i)) * 10 + (s[i] as int - 48));
        assert(digits_value(s.take(i)) * 10 >= digits_value(s.take(i)));
        lemma_digits_value_take_le(s, i + 1);
    } else {
        assert(s.take(i) =~= s);
    }
}

/// Whether the text is a non-empty run of decimal digits.
pub fn is_numeric_text(s: &String) -> (r: bool)
    ensures
        r == (s@.len() > 0 && all_digits(s@)),
{
    let len = s.as_str().unicode_len();
    if len == 0 {
        return false;
    }
    let mut i: usize = 0;
    while i < len
        invariant
            len == s@.len(),
            i <= len,
            forall|k: int| 0 <= k < i ==> is_digit(#[trigger] s@[k]),
        decreases len - i,
    {
        let c = s.as_str().get_char(i);
        let u = c as u32;
        if u < 48 || u > 57 {
            return false;
        }
        i = i + 1;
    }
    true
}

/// The numeric value of a non-empty digit run, if it fits in 16 bits.
pub fn numeric_value_capped(s: &String) -> (r: Option<u16>)
    requires
        s@.len() > 0,
        all_digits(s@),
    ensures
        match r {
            Option::Some(v) => digits_value(s@) == v as int,
            Option::None => digits_value(s@) > 65535,
        },
{
    let len = s.as_str().unicode_len();
    let mut acc: u32 = 0;
    let mut i: usize = 0;
    proof {
        assert(s@.take(0) =~= Seq::<char>::empty());
    }
    while i < len
        invariant
            len == s@.len(),
            all_digits(s@),
            i <= len,
            acc as int == digits_value(s@.take(i as int)),
            acc <= 65535,
        decreases len - i,
    {
        let c = s.as_str().get_char(i);
        proof {
            assert(is_digit(s@[i as int]));
        }
        let d: u32 = (c as u32) - 48;
        let next: u32 = acc * 10 + d;
        proof {
            assert(s@.take(i + 1 as int).drop_last() =~= s@.take(i as int));
            assert(s@.take(i + 1 as int).last() == s@[i as int]);
        }
        if next > 65535 {
            proof {
                lemma_digits_value_take_le(s@, i + 1 as int);
            }
            return Option::None;
        }
        acc = next;
        i = i + 1;
    }
    proof {
        assert(s@.take(len as int) =~= s@);
    }
    Option::Some(acc as u16)
}

/// The extended image of a flat token that passes through unchanged.
/// Meaningful only for tokens that start no compound form, that is, anything
/// but whitespace, `#`, `@` and the `port` keyword.
pub open spec fn plain_view(t: token::TokenView) -> TokenView {
    match t {
        token::TokenView::Dot => TokenView::Dot,
        token::TokenView::Newline => TokenView::Newline,
        token::TokenView::Identifier(text) => TokenView::Identifier(text),
        token::TokenView::LeftAngle => TokenView::LeftAngle,
        token::TokenView::RightAngle => TokenView::RightAngle,
        token::TokenView::LeftCurly => TokenView::LeftCurly,
        token::TokenView::RightCurly => TokenView::RightCurly,
        token::TokenView::LeftParen => TokenView::LeftParen,
        token::TokenView::RightParen => TokenView::RightParen,
        token::TokenView::LeftBracket => TokenView::LeftBracket,
        token::TokenView::RightBracket => TokenView::RightBracket,
        token::TokenView::Comma => TokenView::Comma,
        token::TokenView::Semicolon => TokenView::Semicolon,
        token::TokenView::Colon => TokenView::Colon,
        token::TokenView::Equals => TokenView::Equals,
        token::TokenView::Quote => TokenView::Quote,
        token::TokenView::ForwardSlash => TokenView::ForwardSlash,
        token::TokenView::BackSlash => TokenView::BackSlash,
        token::TokenView::Source => TokenView::Source,
        token::TokenView::Match => TokenView::Match,
        token::TokenView::Filter => TokenView::Filter,
        token::TokenView::System => TokenView::System,
        token::TokenView::Label => TokenView::Label,
        token::TokenView::Worker => TokenView::Worker,
        token::TokenView::Record => TokenView::Record,
        token::TokenView::Buffer => TokenView::Buffer,
        _ => TokenView::Dot,
    }
}

/// Prefix an extended token onto a pending scan result; an error passes
/// through unchanged.
pub open spec fn cons_token(t: TokenView, r: Result<Seq<TokenView>, ScanErrorView>) -> Result<
    Seq<TokenView>,
    ScanErrorView,
> {
    match r {
        Result::Ok(rest) => Result::Ok(seq![t] + rest),
        Result::Err(e) => Result::Err(e),
    }
}

/// The extended token sequence that assembling the flat tokens from position
/// `i` onwards denotes, or the first fault met.
pub open spec fn ext_scan_spec(ts: Seq<token::TokenView>, i: int) -> Result<
    Seq<TokenView>,
    ScanErrorView,
>
    decreases ts.len() - i,
    via ext_scan_spec_decreases
{
    if i < 0 || i >= ts.len() {
        Result::Ok(Seq::empty())
    } else if ts[i] is Whitespace {
        ext_scan_spec(ts, i + 1)
    } else if ts[i] is HashTag {
        let j = newline_index(ts, i + 1);
        let body = trim_spaces(spellings(ts.subrange(i + 1, j)));
        cons_token(TokenView::HashTag(body), ext_scan_spec(ts, j))
    } else if ts[i] is AtSign {
        if i + 1 < ts.len() && is_wordlike(ts[i + 1]) {
            let name = token::spelling(ts[i + 1]);
            let j = newline_index(ts, i + 2);
            let args = trim_spaces(spellings(ts.subrange(i + 2, j)));
            match directive_spec(name, args) {
                Result::Ok(d) => cons_token(TokenView::AtSign(d), ext_scan_spec(ts, j)),
                Result::Err(m) => Result::Err(ScanErrorView::UnknownDirective(m)),
            }
        } else {
            Result::Err(ScanErrorView::UnknownDirective(unknown_directive_msg(Seq::empty())))
        }
    } else if ts[i] is Port {
        let j = non_ws_index(ts, i + 1);
        if j < ts.len() {
            match ts[j] {
                token::TokenView::Identifier(text) => if text.len() > 0 && all_digits(text) {
                    if digits_value(text) <= 65535 {
                        cons_token(
                            TokenView::Port(digits_value(text) as u16),
                            ext_scan_spec(ts, j + 1),
                        )
                    } else {
                        Result::Err(ScanErrorView::ValueOutOfRange(text))
                    }
                } else {
                    Result::Err(ScanErrorView::NotANumber(text))
                },
                _ => Result::Err(ScanErrorView::NotANumber(token::spelling(ts[j]))),
            }
        } else {
            Result::Err(ScanErrorView::NotANumber(Seq::empty()))
        }
    } else {
        cons_token(plain_view(ts[i]), ext_scan_spec(ts, i + 1))
    }
}

#[via_fn]
proof fn ext_scan_spec_decreases(ts: Seq<token::TokenView>, i: int) {
    if 0 <= i && i < ts.len() {
        if ts[i] is HashTag {
            lemma_newline_index(ts, i + 1);
        }
        if ts[i] is AtSign && i + 1 < ts.len() && is_wordlike(ts[i + 1]) {
            lemma_newline_index(ts, i + 2);
        }
        if ts[i] is Port {
            lemma_non_ws_index(ts, i + 1);
        }
    }
}

/// The views of an extended token sequence.
pub open spec fn ext_seq_view(ts: Seq<Token>) -> Seq<TokenView> {
    ts.map_values(|t: Token| t@)
}

/// The image of an extended scan's outcome.
pub open spec fn ext_result_view(r: Result<Vec<Token>, ScanError>) -> Result<
    Seq<TokenView>,
    ScanErrorView,
> {
    match r {
        Result::Ok(v) => Result::Ok(ext_seq_view(v@)),
        Result::Err(e) => Result::Err(e@),
    }
}

/// Prefix already-assembled tokens onto a pending scan result.
pub open spec fn prepend_tokens(
    p: Seq<TokenView>,
    r: Result<Seq<TokenView>, ScanErrorView>,
) -> Result<Seq<TokenView>, ScanErrorView> {
    match r {
        Result::Ok(rest) => Result::Ok(p + rest),
        Result::Err(e) => Result::Err(e),
    }
}

proof fn lemma_prepend_cons(
    p: Seq<TokenView>,
    t: TokenView,
    r: Result<Seq<TokenView>, ScanErrorView>,
)
    ensures
        prepend_tokens(p, cons_token(t, r)) == prepend_tokens(p.push(t), r),
{
    match r {
        Result::Ok(rest) => {
            assert(p + (seq![t] + rest) =~= p.push(t) + rest);
        },
        Result::Err(_) => {},
    }
}

proof fn lemma_prepend_empty(r: Result<Seq<TokenView>, ScanErrorView>)
    ensures
        prepend_tokens(Seq::empty(), r) == r,
{
    match r {
        Result::Ok(rest) => {
            assert(Seq::empty() + rest =~= rest);
        },
        Result::Err(_) => {},
    }
}

fn newline_index_exec(tokens: &Vec<token::Token>, from: usize) -> (j: usize)
    requires
        from as int <= tokens@.len(),
    ensures
        j as int == newline_index(seq_view(tokens@), from as int),
        from <= j,
        j as int <= tokens@.len(),
{
    let ghost ts = seq_view(tokens@);
    let mut j = from;
    while j < tokens.len() && !(matches!(&tokens[j], token::Token::Newline))
        invariant
            ts == seq_view(tokens@),
            from <= j,
            j as int <= tokens@.len(),
            newline_index(ts, from as int) == newline_index(ts, j as int),
        decreases tokens@.len() - j,
    {
        proof {
            assert(ts[j as int] == tokens@[j as int]@);
        }
        j = j + 1;
    }
    proof {
        if (j as int) < tokens@.len() {
            assert(ts[j as int] == tokens@[j as int]@);
        }
    }
    j
}

fn non_ws_index_exec(tokens: &Vec<token::Token>, from: usize) -> (j: usize)
    requires
        from as int <= tokens@.len(),
    ensures
        j as int == non_ws_index(seq_view(tokens@), from as int),
        from <= j,
        j as int <= tokens@.len(),
{
    let ghost ts = seq_view(tokens@);
    let mut j = from;
    while j < tokens.len() && matches!(&tokens[j], token::Token::Whitespace)
        invariant
            ts == seq_view(tokens@),
            from <= j,
            j as int <= tokens@.len(),
            non_ws_index(ts, from as int) == non_ws_index(ts, j as int),
        decreases tokens@.len() - j,
    {
        proof {
            assert(ts[j as int] == tokens@[j as int]@);
        }
        j = j + 1;
    }
    proof {
        if (j as int) < tokens@.len() {
            assert(ts[j as int] == tokens@[j as int]@);
        }
    }
    j
}

/// The concatenated spellings of the tokens in positions `lo` up to `hi`.
fn spellings_range_exec(tokens: &Vec<token::Token>, lo: usize, hi: usize) -> (r: String)
    requires
        lo <= hi,
        hi as int <= tokens@.len(),
    ensures
        r@ == spellings(seq_view(tokens@).subrange(lo as int, hi as int)),
{
    let ghost ts = seq_view(tokens@);
    let mut r = String::new();
    let mut i = lo;
    proof {
        assert(ts.subrange(lo as int, lo as int) =~= Seq::<token::TokenView>::empty());
    }
    while i < hi
        invariant
            ts == seq_view(tokens@),
            lo <= i <= hi,
            hi as int <= tokens@.len(),
            r@ == spellings(ts.subrange(lo as int, i as int)),
        decreases hi - i,
    {
        let piece = tokens[i].spelling_text();
        r.append(piece.as_str());
        proof {
            assert(ts.subrange(lo as int, i + 1 as int) =~= ts.subrange(lo as int, i as int).push(
                ts[i as int],
            ));
            lemma_spellings_push(ts.subrange(lo as int, i as int), ts[i as int]);
            assert(ts[i as int] == tokens@[i as int]@);
        }
        i = i + 1;
    }
    r
}

fn is_wordlike_exec(t: &token::Token) -> (r: bool)
    ensures
        r == is_wordlike(t@),
{
    match t {
        token::Token::Identifier(_) => true,
        token::Token::Port => true,
        token::Token::Source => true,
        token::Token::Match => true,
        token::Token::Filter => true,
        token::Token::System => true,
        token::Token::Label => true,
        token::Token::Worker => true,
        token::Token::Record => true,
        token::Token::Buffer => true,
        _ => false,
    }
}

fn plain_token(t: &token::Token) -> (e: Token)
    requires
        !(t@ is Whitespace),
        !(t@ is HashTag),
        !(t@ is AtSign),
        !(t@ is Port),
    ensures
        e@ == plain_view(t@),
{
    match t {
        token::Token::Dot => Token::Dot,
        token::Token::Newline => Token::Newline,
        token::Token::Identifier(l) => Token::Identifier(l.0.clone()),
        token::Token::LeftAngle => Token::LeftAngle,
        token::Token::RightAngle => Token::RightAngle,
        token::Token::LeftCurly => Token::LeftCurly,
        token::Token::RightCurly => Token::RightCurly,
        token::Token::LeftParen => Token::LeftParen,
        token::Token::RightParen => Token::RightParen,
        token::Token::LeftBracket => Token::LeftBracket,
        token::Token::RightBracket => Token::RightBracket,
        token::Token::Comma => Token::Comma,
        token::Token::Semicolon => Token::Semicolon,
        token::Token::Colon => Token::Colon,
        token::Token::Equals => Token::Equals,
        token::Token::Quote => Token::Quote,
        token::Token::ForwardSlash => Token::ForwardSlash,
        token::Token::BackSlash => Token::BackSlash,
        token::Token::Source => Token::Source,
        token::Token::Match => Token::Match,
        token::Token::Filter => Token::Filter,
        token::Token::System => Token::System,
        token::Token::Label => Token::Label,
        token::Token::Worker => Token::Worker,
        token::Token::Record => Token::Record,
        token::Token::Buffer => Token::Buffer,
        _ => {
            proof {
                assert(false);
            }
            Token::Dot
        },
    }
}

/// Assemble the flat token stream into extended tokens: comments behind `#`,
/// `@` directives, `port` with its 16-bit value, everything else passed
/// through with whitespace dropped. Returns the full extended sequence, or
/// the first fault met, exactly as `ext_scan_spec` denotes.
pub fn scan_extended(tokens: &Vec<token::Token>) -> (r: Result<Vec<Token>, ScanError>)
    ensures
        ext_result_view(r) == ext_scan_spec(seq_view(tokens@), 0),
{
    let ghost ts = seq_view(tokens@);
    let mut out: Vec<Token> = Vec::new();
    let mut i: usize = 0;
    proof {
        assert(ext_seq_view(out@) =~= Seq::<TokenView>::empty());
        lemma_prepend_empty(ext_scan_spec(ts, 0));
    }
    while i < tokens.len()
        invariant
            ts == seq_view(tokens@),
            i as int <= tokens@.len(),
            ext_scan_spec(ts, 0) == prepend_tokens(ext_seq_view(out@), ext_scan_spec(ts, i as int)),
        decreases tokens@.len() - i,
    {
        let ghost i0 = i as int;
        let ghost out0 = out@;
        proof {
            assert(ts[i0] == tokens@[i0]@);
        }
        match &tokens[i] {
            token::Token::Whitespace => {
                i = i + 1;
            },
            token::Token::HashTag => {
                let j = newline_index_exec(tokens, i + 1);
                let body = spellings_range_exec(tokens, i + 1, j);
                let trimmed = trim_spaces_text(body.as_str());
                let t = Token::HashTag(trimmed);
                proof {
                    lemma_prepend_cons(ext_seq_view(out0), t@, ext_scan_spec(ts, j as int));
                }
                out.push(t);
                proof {
                    assert(ext_seq_view(out@) =~= ext_seq_view(out0).push(
                        TokenView::HashTag(trimmed@),
                    ));
                }
                i = j;
            },
            token::Token::AtSign => {
                if i + 1 < tokens.len() && is_wordlike_exec(&tokens[i + 1]) {
                    proof {
                        assert(ts[i0 + 1] == tokens@[i0 + 1]@);
                    }
                    let name = tokens[i + 1].spelling_text();
                    let j = newline_index_exec(tokens, i + 2);
                    let args_raw = spellings_range_exec(tokens, i + 2, j);
                    let args = trim_spaces_text(args_raw.as_str());
                    match AtSignIdent::from_str_with_ident(name, args) {
                        Result::Ok(d) => {
                            let t = Token::AtSign(d);
                            proof {
                                lemma_prepend_cons(
                                    ext_seq_view(out0),
                                    t@,
                                    ext_scan_spec(ts, j as int),
                                );
                            }
                            out.push(t);
                            proof {
                                assert(ext_seq_view(out@) =~= ext_seq_view(out0).push(t@));
                            }
                            i = j;
                        },
                        Result::Err(e) => {
                            return Result::Err(ScanError::UnknownDirective(e));
                        },
                    }
                } else {
                    let msg = String::from_str("Unknown @ sign identifier: ");
                    proof {
                        assert(msg@ =~= unknown_directive_msg(Seq::empty()));
                    }
                    return Result::Err(ScanError::UnknownDirective(msg));
                }
            },
            token::Token::Port => {
                let j = non_ws_index_exec(tokens, i + 1);
                if j < tokens.len() {
                    proof {
                        assert(ts[j as int] == tokens@[j as int]@);
                    }
                    match &tokens[j] {
                        token::Token::Identifier(lit) => {
                            if is_numeric_text(&lit.0) {
                                match numeric_value_capped(&lit.0) {
                                    Option::Some(v) => {
                                        let t = Token::Port(v);
                                        proof {
                                            lemma_prepend_cons(
                                                ext_seq_view(out0),
                                                t@,
                                                ext_scan_spec(ts, j + 1 as int),
                                            );
                                        }
                                        out.push(t);
                                        proof {
                                            assert(ext_seq_view(out@) =~= ext_seq_view(out0).push(
                                                t@,
                                            ));
                                        }
                                        i = j + 1;
                                    },
                                    Option::None => {
                                        return Result::Err(
                                            ScanError::ValueOutOfRange(lit.0.clone()),
                                        );
                                    },
                                }
                            } else {
                                return Result::Err(ScanError::NotANumber(lit.0.clone()));
                            }
                        },
                        other => {
                            return Result::Err(ScanError::NotANumber(other.spelling_text()));
                        },
                    }
                } else {
                    return Result::Err(ScanError::NotANumber(String::new()));
                }
            },
            other => {
                let t = plain_token(other);
                proof {
                    lemma_prepend_cons(ext_seq_view(out0), t@, ext_scan_spec(ts, i0 + 1));
                }
                out.push(t);
                proof {
                    assert(ext_seq_view(out@) =~= ext_seq_view(out0).push(t@));
                }
                i = i + 1;
            },
        }
    }
    proof {
        assert(ext_seq_view(out@) + Seq::<TokenView>::empty() =~= ext_seq_view(out@));
    }
    Result::Ok(out)
}

} // verus!
