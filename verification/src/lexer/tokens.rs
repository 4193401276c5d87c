//! The token kinds: fixed punctuation, identifiers and numeric literals.
use crate::error::{Error, ErrorView};
use crate::lexer::{token_text, Lexer, Token, TokenKind};
use crate::text::{
    byte_len, first_char, is_boundary, is_digit, lemma_offset_monotone,
    lemma_offset_split, lemma_run_bounds, match_prefix, offset_of, run, scan_run, suffix,
    CharClass,
};
use crate::value::{literal, literal_value, marker};
use core::ops::Range;
use vstd::prelude::*;

verus! {

/// What a fixed pattern gives at the front of a text.
pub open spec fn scan_fixed(pattern: Seq<char>, input: Seq<char>) -> Option<Result<nat, ErrorView>> {
    if pattern.is_prefix_of(input) {
        Some(Ok(pattern.len()))
    } else {
        None
    }
}

/// The end of a token of fixed text at the front of `input`, if it stands there.
pub fn parse_fixed(start: usize, input: &str, pattern: &str) -> (r: Option<usize>)
    requires
        start + byte_len(input@) <= usize::MAX,
    ensures
        r == if pattern@.is_prefix_of(input@) {
            Some((start + offset_of(input@, pattern@.len() as int)) as usize)
        } else {
            None
        },
        pattern@.is_prefix_of(input@) ==> start + offset_of(input@, pattern@.len() as int)
            <= usize::MAX,
{
    proof {
        if pattern@.is_prefix_of(input@) {
            lemma_offset_split(input@, pattern@.len() as int, 0);
        }
    }
    match match_prefix(input, pattern) {
        Some(n) => Some(start + n),
        None => None,
    }
}

/// The token `+`.
pub struct Plus(Range<usize>);

impl Token for Plus {
    open spec fn kind() -> TokenKind {
        TokenKind::Plus
    }

    open spec fn scan(input: Seq<char>) -> Option<Result<nat, ErrorView>> {
        scan_fixed("+"@, input)
    }

    closed spec fn range(&self) -> Range<usize> {
        self.0
    }

    proof fn scan_bounded(input: Seq<char>) {
    }

    proof fn span_is_payload(a: Self, b: Self) {
    }

    fn id() -> (k: TokenKind) {
        TokenKind::Plus
    }

    fn span(&self) -> (r: &Range<usize>) {
        &self.0
    }

    fn from_span(span: Range<usize>) -> (t: Self) {
        Plus(span)
    }

    fn parse<'a>(start: usize, input: &'a str) -> (r: Option<Result<(Self, usize), Error<'a>>>) {
        match parse_fixed(start, input, "+") {
            Some(end) => Some(Ok((Plus(Range { start, end }), end))),
            None => None,
        }
    }
}

/// The token `-`.
pub struct Minus(Range<usize>);

impl Token for Minus {
    open spec fn kind() -> TokenKind {
        TokenKind::Minus
    }

    open spec fn scan(input: Seq<char>) -> Option<Result<nat, ErrorView>> {
        scan_fixed("-"@, input)
    }

    closed spec fn range(&self) -> Range<usize> {
        self.0
    }

    proof fn scan_bounded(input: Seq<char>) {
    }

    proof fn span_is_payload(a: Self, b: Self) {
    }

    fn id() -> (k: TokenKind) {
        TokenKind::Minus
    }

    fn span(&self) -> (r: &Range<usize>) {
        &self.0
    }

    fn from_span(span: Range<usize>) -> (t: Self) {
        Minus(span)
    }

    fn parse<'a>(start: usize, input: &'a str) -> (r: Option<Result<(Self, usize), Error<'a>>>) {
        match parse_fixed(start, input, "-") {
            Some(end) => Some(Ok((Minus(Range { start, end }), end))),
            None => None,
        }
    }
}

/// The token `*`.
pub struct Star(Range<usize>);

impl Token for Star {
    open spec fn kind() -> TokenKind {
        TokenKind::Star
    }

    open spec fn scan(input: Seq<char>) -> Option<Result<nat, ErrorView>> {
        scan_fixed("*"@, input)
    }

    closed spec fn range(&self) -> Range<usize> {
        self.0
    }

    proof fn scan_bounded(input: Seq<char>) {
    }

    proof fn span_is_payload(a: Self, b: Self) {
    }

    fn id() -> (k: TokenKind) {
        TokenKind::Star
    }

    fn span(&self) -> (r: &Range<usize>) {
        &self.0
    }

    fn from_span(span: Range<usize>) -> (t: Self) {
        Star(span)
    }

    fn parse<'a>(start: usize, input: &'a str) -> (r: Option<Result<(Self, usize), Error<'a>>>) {
        match parse_fixed(start, input, "*") {
            Some(end) => Some(Ok((Star(Range { start, end }), end))),
            None => None,
        }
    }
}

/// The token `/`.
pub struct Slash(Range<usize>);

impl Token for Slash {
    open spec fn kind() -> TokenKind {
        TokenKind::Slash
    }

    open spec fn scan(input: Seq<char>) -> Option<Result<nat, ErrorView>> {
        scan_fixed("/"@, input)
    }

    closed spec fn range(&self) -> Range<usize> {
        self.0
    }

    proof fn scan_bounded(input: Seq<char>) {
    }

    proof fn span_is_payload(a: Self, b: Self) {
    }

    fn id() -> (k: TokenKind) {
        TokenKind::Slash
    }

    fn span(&self) -> (r: &Range<usize>) {
        &self.0
    }

    fn from_span(span: Range<usize>) -> (t: Self) {
        Slash(span)
    }

    fn parse<'a>(start: usize, input: &'a str) -> (r: Option<Result<(Self, usize), Error<'a>>>) {
        match parse_fixed(start, input, "/") {
            Some(end) => Some(Ok((Slash(Range { start, end }), end))),
            None => None,
        }
    }
}

/// The token `%`.
pub struct Percent(Range<usize>);

impl Token for Percent {
    open spec fn kind() -> TokenKind {
        TokenKind::Percent
    }

    open spec fn scan(input: Seq<char>) -> Option<Result<nat, ErrorView>> {
        scan_fixed("%"@, input)
    }

    closed spec fn range(&self) -> Range<usize> {
        self.0
    }

    proof fn scan_bounded(input: Seq<char>) {
    }

    proof fn span_is_payload(a: Self, b: Self) {
    }

    fn id() -> (k: TokenKind) {
        TokenKind::Percent
    }

    fn span(&self) -> (r: &Range<usize>) {
        &self.0
    }

    fn from_span(span: Range<usize>) -> (t: Self) {
        Percent(span)
    }

    fn parse<'a>(start: usize, input: &'a str) -> (r: Option<Result<(Self, usize), Error<'a>>>) {
        match parse_fixed(start, input, "%") {
            Some(end) => Some(Ok((Percent(Range { start, end }), end))),
            None => None,
        }
    }
}

/// The token `+=`.
pub struct PlusEqual(Range<usize>);

impl Token for PlusEqual {
    open spec fn kind() -> TokenKind {
        TokenKind::PlusEqual
    }

    open spec fn scan(input: Seq<char>) -> Option<Result<nat, ErrorView>> {
        scan_fixed("+="@, input)
    }

    closed spec fn range(&self) -> Range<usize> {
        self.0
    }

    proof fn scan_bounded(input: Seq<char>) {
    }

    proof fn span_is_payload(a: Self, b: Self) {
    }

    fn id() -> (k: TokenKind) {
        TokenKind::PlusEqual
    }

    fn span(&self) -> (r: &Range<usize>) {
        &self.0
    }

    fn from_span(span: Range<usize>) -> (t: Self) {
        PlusEqual(span)
    }

    fn parse<'a>(start: usize, input: &'a str) -> (r: Option<Result<(Self, usize), Error<'a>>>) {
        match parse_fixed(start, input, "+=") {
            Some(end) => Some(Ok((PlusEqual(Range { start, end }), end))),
            None => None,
        }
    }
}

/// The token `-=`.
pub struct MinusEqual(Range<usize>);

impl Token for MinusEqual {
    open spec fn kind() -> TokenKind {
        TokenKind::MinusEqual
    }

    open spec fn scan(input: Seq<char>) -> Option<Result<nat, ErrorView>> {
        scan_fixed("-="@, input)
    }

    closed spec fn range(&self) -> Range<usize> {
        self.0
    }

    proof fn scan_bounded(input: Seq<char>) {
    }

    proof fn span_is_payload(a: Self, b: Self) {
    }

    fn id() -> (k: TokenKind) {
        TokenKind::MinusEqual
    }

    fn span(&self) -> (r: &Range<usize>) {
        &self.0
    }

    fn from_span(span: Range<usize>) -> (t: Self) {
        MinusEqual(span)
    }

    fn parse<'a>(start: usize, input: &'a str) -> (r: Option<Result<(Self, usize), Error<'a>>>) {
        match parse_fixed(start, input, "-=") {
            Some(end) => Some(Ok((MinusEqual(Range { start, end }), end))),
            None => None,
        }
    }
}

/// The token `*=`.
pub struct StarEqual(Range<usize>);

impl Token for StarEqual {
    open spec fn kind() -> TokenKind {
        TokenKind::StarEqual
    }

    open spec fn scan(input: Seq<char>) -> Option<Result<nat, ErrorView>> {
        scan_fixed("*="@, input)
    }

    closed spec fn range(&self) -> Range<usize> {
        self.0
    }

    proof fn scan_bounded(input: Seq<char>) {
    }

    proof fn span_is_payload(a: Self, b: Self) {
    }

    fn id() -> (k: TokenKind) {
        TokenKind::StarEqual
    }

    fn span(&self) -> (r: &Range<usize>) {
        &self.0
    }

    fn from_span(span: Range<usize>) -> (t: Self) {
        StarEqual(span)
    }

    fn parse<'a>(start: usize, input: &'a str) -> (r: Option<Result<(Self, usize), Error<'a>>>) {
        match parse_fixed(start, input, "*=") {
            Some(end) => Some(Ok((StarEqual(Range { start, end }), end))),
            None => None,
        }
    }
}

/// The token `/=`.
pub struct SlashEqual(Range<usize>);

impl Token for SlashEqual {
    open spec fn kind() -> TokenKind {
        TokenKind::SlashEqual
    }

    open spec fn scan(input: Seq<char>) -> Option<Result<nat, ErrorView>> {
        scan_fixed("/="@, input)
    }

    closed spec fn range(&self) -> Range<usize> {
        self.0
    }

    proof fn scan_bounded(input: Seq<char>) {
    }

    proof fn span_is_payload(a: Self, b: Self) {
    }

    fn id() -> (k: TokenKind) {
        TokenKind::SlashEqual
    }

    fn span(&self) -> (r: &Range<usize>) {
        &self.0
    }

    fn from_span(span: Range<usize>) -> (t: Self) {
        SlashEqual(span)
    }

    fn parse<'a>(start: usize, input: &'a str) -> (r: Option<Result<(Self, usize), Error<'a>>>) {
        match parse_fixed(start, input, "/=") {
            Some(end) => Some(Ok((SlashEqual(Range { start, end }), end))),
            None => None,
        }
    }
}

/// The token `%=`.
pub struct PercentEqual(Range<usize>);

impl Token for PercentEqual {
    open spec fn kind() -> TokenKind {
        TokenKind::PercentEqual
    }

    open spec fn scan(input: Seq<char>) -> Option<Result<nat, ErrorView>> {
        scan_fixed("%="@, input)
    }

    closed spec fn range(&self) -> Range<usize> {
        self.0
    }

    proof fn scan_bounded(input: Seq<char>) {
    }

    proof fn span_is_payload(a: Self, b: Self) {
    }

    fn id() -> (k: TokenKind) {
        TokenKind::PercentEqual
    }

    fn span(&self) -> (r: &Range<usize>) {
        &self.0
    }

    fn from_span(span: Range<usize>) -> (t: Self) {
        PercentEqual(span)
    }

    fn parse<'a>(start: usize, input: &'a str) -> (r: Option<Result<(Self, usize), Error<'a>>>) {
        match parse_fixed(start, input, "%=") {
            Some(end) => Some(Ok((PercentEqual(Range { start, end }), end))),
            None => None,
        }
    }
}

/// The token `==`.
pub struct EqualEqual(Range<usize>);

impl Token for EqualEqual {
    open spec fn kind() -> TokenKind {
        TokenKind::EqualEqual
    }

    open spec fn scan(input: Seq<char>) -> Option<Result<nat, ErrorView>> {
        scan_fixed("=="@, input)
    }

    closed spec fn range(&self) -> Range<usize> {
        self.0
    }

    proof fn scan_bounded(input: Seq<char>) {
    }

    proof fn span_is_payload(a: Self, b: Self) {
    }

    fn id() -> (k: TokenKind) {
        TokenKind::EqualEqual
    }

    fn span(&self) -> (r: &Range<usize>) {
        &self.0
    }

    fn from_span(span: Range<usize>) -> (t: Self) {
        EqualEqual(span)
    }

    fn parse<'a>(start: usize, input: &'a str) -> (r: Option<Result<(Self, usize), Error<'a>>>) {
        match parse_fixed(start, input, "==") {
            Some(end) => Some(Ok((EqualEqual(Range { start, end }), end))),
            None => None,
        }
    }
}

/// The token `!=`.
pub struct BangEqual(Range<usize>);

impl Token for BangEqual {
    open spec fn kind() -> TokenKind {
        TokenKind::BangEqual
    }

    open spec fn scan(input: Seq<char>) -> Option<Result<nat, ErrorView>> {
        scan_fixed("!="@, input)
    }

    closed spec fn range(&self) -> Range<usize> {
        self.0
    }

    proof fn scan_bounded(input: Seq<char>) {
    }

    proof fn span_is_payload(a: Self, b: Self) {
    }

    fn id() -> (k: TokenKind) {
        TokenKind::BangEqual
    }

    fn span(&self) -> (r: &Range<usize>) {
        &self.0
    }

    fn from_span(span: Range<usize>) -> (t: Self) {
        BangEqual(span)
    }

    fn parse<'a>(start: usize, input: &'a str) -> (r: Option<Result<(Self, usize), Error<'a>>>) {
        match parse_fixed(start, input, "!=") {
            Some(end) => Some(Ok((BangEqual(Range { start, end }), end))),
            None => None,
        }
    }
}

/// The token `<=`.
pub struct LessEqual(Range<usize>);

impl Token for LessEqual {
    open spec fn kind() -> TokenKind {
        TokenKind::LessEqual
    }

    open spec fn scan(input: Seq<char>) -> Option<Result<nat, ErrorView>> {
        scan_fixed("<="@, input)
    }

    closed spec fn range(&self) -> Range<usize> {
        self.0
    }

    proof fn scan_bounded(input: Seq<char>) {
    }

    proof fn span_is_payload(a: Self, b: Self) {
    }

    fn id() -> (k: TokenKind) {
        TokenKind::LessEqual
    }

    fn span(&self) -> (r: &Range<usize>) {
        &self.0
    }

    fn from_span(span: Range<usize>) -> (t: Self) {
        LessEqual(span)
    }

    fn parse<'a>(start: usize, input: &'a str) -> (r: Option<Result<(Self, usize), Error<'a>>>) {
        match parse_fixed(start, input, "<=") {
            Some(end) => Some(Ok((LessEqual(Range { start, end }), end))),
            None => None,
        }
    }
}

/// The token `>=`.
pub struct GreaterEqual(Range<usize>);

impl Token for GreaterEqual {
    open spec fn kind() -> TokenKind {
        TokenKind::GreaterEqual
    }

    open spec fn scan(input: Seq<char>) -> Option<Result<nat, ErrorView>> {
        scan_fixed(">="@, input)
    }

    closed spec fn range(&self) -> Range<usize> {
        self.0
    }

    proof fn scan_bounded(input: Seq<char>) {
    }

    proof fn span_is_payload(a: Self, b: Self) {
    }

    fn id() -> (k: TokenKind) {
        TokenKind::GreaterEqual
    }

    fn span(&self) -> (r: &Range<usize>) {
        &self.0
    }

    fn from_span(span: Range<usize>) -> (t: Self) {
        GreaterEqual(span)
    }

    fn parse<'a>(start: usize, input: &'a str) -> (r: Option<Result<(Self, usize), Error<'a>>>) {
        match parse_fixed(start, input, ">=") {
            Some(end) => Some(Ok((GreaterEqual(Range { start, end }), end))),
            None => None,
        }
    }
}

/// The token `&&`.
pub struct AndAnd(Range<usize>);

impl Token for AndAnd {
    open spec fn kind() -> TokenKind {
        TokenKind::AndAnd
    }

    open spec fn scan(input: Seq<char>) -> Option<Result<nat, ErrorView>> {
        scan_fixed("&&"@, input)
    }

    closed spec fn range(&self) -> Range<usize> {
        self.0
    }

    proof fn scan_bounded(input: Seq<char>) {
    }

    proof fn span_is_payload(a: Self, b: Self) {
    }

    fn id() -> (k: TokenKind) {
        TokenKind::AndAnd
    }

    fn span(&self) -> (r: &Range<usize>) {
        &self.0
    }

    fn from_span(span: Range<usize>) -> (t: Self) {
        AndAnd(span)
    }

    fn parse<'a>(start: usize, input: &'a str) -> (r: Option<Result<(Self, usize), Error<'a>>>) {
        match parse_fixed(start, input, "&&") {
            Some(end) => Some(Ok((AndAnd(Range { start, end }), end))),
            None => None,
        }
    }
}

/// The token `||`.
pub struct OrOr(Range<usize>);

impl Token for OrOr {
    open spec fn kind() -> TokenKind {
        TokenKind::OrOr
    }

    open spec fn scan(input: Seq<char>) -> Option<Result<nat, ErrorView>> {
        scan_fixed("||"@, input)
    }

    closed spec fn range(&self) -> Range<usize> {
        self.0
    }

    proof fn scan_bounded(input: Seq<char>) {
    }

    proof fn span_is_payload(a: Self, b: Self) {
    }

    fn id() -> (k: TokenKind) {
        TokenKind::OrOr
    }

    fn span(&self) -> (r: &Range<usize>) {
        &self.0
    }

    fn from_span(span: Range<usize>) -> (t: Self) {
        OrOr(span)
    }

    fn parse<'a>(start: usize, input: &'a str) -> (r: Option<Result<(Self, usize), Error<'a>>>) {
        match parse_fixed(start, input, "||") {
            Some(end) => Some(Ok((OrOr(Range { start, end }), end))),
            None => None,
        }
    }
}

/// The token `!`.
pub struct Bang(Range<usize>);

impl Token for Bang {
    open spec fn kind() -> TokenKind {
        TokenKind::Bang
    }

    open spec fn scan(input: Seq<char>) -> Option<Result<nat, ErrorView>> {
        scan_fixed("!"@, input)
    }

    closed spec fn range(&self) -> Range<usize> {
        self.0
    }

    proof fn scan_bounded(input: Seq<char>) {
    }

    proof fn span_is_payload(a: Self, b: Self) {
    }

    fn id() -> (k: TokenKind) {
        TokenKind::Bang
    }

    fn span(&self) -> (r: &Range<usize>) {
        &self.0
    }

    fn from_span(span: Range<usize>) -> (t: Self) {
        Bang(span)
    }

    fn parse<'a>(start: usize, input: &'a str) -> (r: Option<Result<(Self, usize), Error<'a>>>) {
        match parse_fixed(start, input, "!") {
            Some(end) => Some(Ok((Bang(Range { start, end }), end))),
            None => None,
        }
    }
}

/// The token `:=`.
pub struct ColonEqual(Range<usize>);

impl Token for ColonEqual {
    open spec fn kind() -> TokenKind {
        TokenKind::ColonEqual
    }

    open spec fn scan(input: Seq<char>) -> Option<Result<nat, ErrorView>> {
        scan_fixed(":="@, input)
    }

    closed spec fn range(&self) -> Range<usize> {
        self.0
    }

    proof fn scan_bounded(input: Seq<char>) {
    }

    proof fn span_is_payload(a: Self, b: Self) {
    }

    fn id() -> (k: TokenKind) {
        TokenKind::ColonEqual
    }

    fn span(&self) -> (r: &Range<usize>) {
        &self.0
    }

    fn from_span(span: Range<usize>) -> (t: Self) {
        ColonEqual(span)
    }

    fn parse<'a>(start: usize, input: &'a str) -> (r: Option<Result<(Self, usize), Error<'a>>>) {
        match parse_fixed(start, input, ":=") {
            Some(end) => Some(Ok((ColonEqual(Range { start, end }), end))),
            None => None,
        }
    }
}

/// The token `<`.
pub struct Less(Range<usize>);

impl Token for Less {
    open spec fn kind() -> TokenKind {
        TokenKind::Less
    }

    open spec fn scan(input: Seq<char>) -> Option<Result<nat, ErrorView>> {
        scan_fixed("<"@, input)
    }

    closed spec fn range(&self) -> Range<usize> {
        self.0
    }

    proof fn scan_bounded(input: Seq<char>) {
    }

    proof fn span_is_payload(a: Self, b: Self) {
    }

    fn id() -> (k: TokenKind) {
        TokenKind::Less
    }

    fn span(&self) -> (r: &Range<usize>) {
        &self.0
    }

    fn from_span(span: Range<usize>) -> (t: Self) {
        Less(span)
    }

    fn parse<'a>(start: usize, input: &'a str) -> (r: Option<Result<(Self, usize), Error<'a>>>) {
        match parse_fixed(start, input, "<") {
            Some(end) => Some(Ok((Less(Range { start, end }), end))),
            None => None,
        }
    }
}

/// The token `>`.
pub struct Greater(Range<usize>);

impl Token for Greater {
    open spec fn kind() -> TokenKind {
        TokenKind::Greater
    }

    open spec fn scan(input: Seq<char>) -> Option<Result<nat, ErrorView>> {
        scan_fixed(">"@, input)
    }

    closed spec fn range(&self) -> Range<usize> {
        self.0
    }

    proof fn scan_bounded(input: Seq<char>) {
    }

    proof fn span_is_payload(a: Self, b: Self) {
    }

    fn id() -> (k: TokenKind) {
        TokenKind::Greater
    }

    fn span(&self) -> (r: &Range<usize>) {
        &self.0
    }

    fn from_span(span: Range<usize>) -> (t: Self) {
        Greater(span)
    }

    fn parse<'a>(start: usize, input: &'a str) -> (r: Option<Result<(Self, usize), Error<'a>>>) {
        match parse_fixed(start, input, ">") {
            Some(end) => Some(Ok((Greater(Range { start, end }), end))),
            None => None,
        }
    }
}

/// The token `;`.
pub struct Semicolon(Range<usize>);

impl Token for Semicolon {
    open spec fn kind() -> TokenKind {
        TokenKind::Semicolon
    }

    open spec fn scan(input: Seq<char>) -> Option<Result<nat, ErrorView>> {
        scan_fixed(";"@, input)
    }

    closed spec fn range(&self) -> Range<usize> {
        self.0
    }

    proof fn scan_bounded(input: Seq<char>) {
    }

    proof fn span_is_payload(a: Self, b: Self) {
    }

    fn id() -> (k: TokenKind) {
        TokenKind::Semicolon
    }

    fn span(&self) -> (r: &Range<usize>) {
        &self.0
    }

    fn from_span(span: Range<usize>) -> (t: Self) {
        Semicolon(span)
    }

    fn parse<'a>(start: usize, input: &'a str) -> (r: Option<Result<(Self, usize), Error<'a>>>) {
        match parse_fixed(start, input, ";") {
            Some(end) => Some(Ok((Semicolon(Range { start, end }), end))),
            None => None,
        }
    }
}

/// The token `,`.
pub struct Comma(Range<usize>);

impl Token for Comma {
    open spec fn kind() -> TokenKind {
        TokenKind::Comma
    }

    open spec fn scan(input: Seq<char>) -> Option<Result<nat, ErrorView>> {
        scan_fixed(","@, input)
    }

    closed spec fn range(&self) -> Range<usize> {
        self.0
    }

    proof fn scan_bounded(input: Seq<char>) {
    }

    proof fn span_is_payload(a: Self, b: Self) {
    }

    fn id() -> (k: TokenKind) {
        TokenKind::Comma
    }

    fn span(&self) -> (r: &Range<usize>) {
        &self.0
    }

    fn from_span(span: Range<usize>) -> (t: Self) {
        Comma(span)
    }

    fn parse<'a>(start: usize, input: &'a str) -> (r: Option<Result<(Self, usize), Error<'a>>>) {
        match parse_fixed(start, input, ",") {
            Some(end) => Some(Ok((Comma(Range { start, end }), end))),
            None => None,
        }
    }
}

/// The token `.`.
pub struct Dot(Range<usize>);

impl Token for Dot {
    open spec fn kind() -> TokenKind {
        TokenKind::Dot
    }

    open spec fn scan(input: Seq<char>) -> Option<Result<nat, ErrorView>> {
        scan_fixed("."@, input)
    }

    closed spec fn range(&self) -> Range<usize> {
        self.0
    }

    proof fn scan_bounded(input: Seq<char>) {
    }

    proof fn span_is_payload(a: Self, b: Self) {
    }

    fn id() -> (k: TokenKind) {
        TokenKind::Dot
    }

    fn span(&self) -> (r: &Range<usize>) {
        &self.0
    }

    fn from_span(span: Range<usize>) -> (t: Self) {
        Dot(span)
    }

    fn parse<'a>(start: usize, input: &'a str) -> (r: Option<Result<(Self, usize), Error<'a>>>) {
        match parse_fixed(start, input, ".") {
            Some(end) => Some(Ok((Dot(Range { start, end }), end))),
            None => None,
        }
    }
}

/// The token `:`.
pub struct Colon(Range<usize>);

impl Token for Colon {
    open spec fn kind() -> TokenKind {
        TokenKind::Colon
    }

    open spec fn scan(input: Seq<char>) -> Option<Result<nat, ErrorView>> {
        scan_fixed(":"@, input)
    }

    closed spec fn range(&self) -> Range<usize> {
        self.0
    }

    proof fn scan_bounded(input: Seq<char>) {
    }

    proof fn span_is_payload(a: Self, b: Self) {
    }

    fn id() -> (k: TokenKind) {
        TokenKind::Colon
    }

    fn span(&self) -> (r: &Range<usize>) {
        &self.0
    }

    fn from_span(span: Range<usize>) -> (t: Self) {
        Colon(span)
    }

    fn parse<'a>(start: usize, input: &'a str) -> (r: Option<Result<(Self, usize), Error<'a>>>) {
        match parse_fixed(start, input, ":") {
            Some(end) => Some(Ok((Colon(Range { start, end }), end))),
            None => None,
        }
    }
}

/// The token `(`.
pub struct LeftParen(Range<usize>);

impl Token for LeftParen {
    open spec fn kind() -> TokenKind {
        TokenKind::LeftParen
    }

    open spec fn scan(input: Seq<char>) -> Option<Result<nat, ErrorView>> {
        scan_fixed("("@, input)
    }

    closed spec fn range(&self) -> Range<usize> {
        self.0
    }

    proof fn scan_bounded(input: Seq<char>) {
    }

    proof fn span_is_payload(a: Self, b: Self) {
    }

    fn id() -> (k: TokenKind) {
        TokenKind::LeftParen
    }

    fn span(&self) -> (r: &Range<usize>) {
        &self.0
    }

    fn from_span(span: Range<usize>) -> (t: Self) {
        LeftParen(span)
    }

    fn parse<'a>(start: usize, input: &'a str) -> (r: Option<Result<(Self, usize), Error<'a>>>) {
        match parse_fixed(start, input, "(") {
            Some(end) => Some(Ok((LeftParen(Range { start, end }), end))),
            None => None,
        }
    }
}

/// The token `)`.
pub struct RightParen(Range<usize>);

impl Token for RightParen {
    open spec fn kind() -> TokenKind {
        TokenKind::RightParen
    }

    open spec fn scan(input: Seq<char>) -> Option<Result<nat, ErrorView>> {
        scan_fixed(")"@, input)
    }

    closed spec fn range(&self) -> Range<usize> {
        self.0
    }

    proof fn scan_bounded(input: Seq<char>) {
    }

    proof fn span_is_payload(a: Self, b: Self) {
    }

    fn id() -> (k: TokenKind) {
        TokenKind::RightParen
    }

    fn span(&self) -> (r: &Range<usize>) {
        &self.0
    }

    fn from_span(span: Range<usize>) -> (t: Self) {
        RightParen(span)
    }

    fn parse<'a>(start: usize, input: &'a str) -> (r: Option<Result<(Self, usize), Error<'a>>>) {
        match parse_fixed(start, input, ")") {
            Some(end) => Some(Ok((RightParen(Range { start, end }), end))),
            None => None,
        }
    }
}

/// The token `{`.
pub struct LeftBrace(Range<usize>);

impl Token for LeftBrace {
    open spec fn kind() -> TokenKind {
        TokenKind::LeftBrace
    }

    open spec fn scan(input: Seq<char>) -> Option<Result<nat, ErrorView>> {
        scan_fixed("{"@, input)
    }

    closed spec fn range(&self) -> Range<usize> {
        self.0
    }

    proof fn scan_bounded(input: Seq<char>) {
    }

    proof fn span_is_payload(a: Self, b: Self) {
    }

    fn id() -> (k: TokenKind) {
        TokenKind::LeftBrace
    }

    fn span(&self) -> (r: &Range<usize>) {
        &self.0
    }

    fn from_span(span: Range<usize>) -> (t: Self) {
        LeftBrace(span)
    }

    fn parse<'a>(start: usize, input: &'a str) -> (r: Option<Result<(Self, usize), Error<'a>>>) {
        match parse_fixed(start, input, "{") {
            Some(end) => Some(Ok((LeftBrace(Range { start, end }), end))),
            None => None,
        }
    }
}

/// The token `}`.
pub struct RightBrace(Range<usize>);

impl Token for RightBrace {
    open spec fn kind() -> TokenKind {
        TokenKind::RightBrace
    }

    open spec fn scan(input: Seq<char>) -> Option<Result<nat, ErrorView>> {
        scan_fixed("}"@, input)
    }

    closed spec fn range(&self) -> Range<usize> {
        self.0
    }

    proof fn scan_bounded(input: Seq<char>) {
    }

    proof fn span_is_payload(a: Self, b: Self) {
    }

    fn id() -> (k: TokenKind) {
        TokenKind::RightBrace
    }

    fn span(&self) -> (r: &Range<usize>) {
        &self.0
    }

    fn from_span(span: Range<usize>) -> (t: Self) {
        RightBrace(span)
    }

    fn parse<'a>(start: usize, input: &'a str) -> (r: Option<Result<(Self, usize), Error<'a>>>) {
        match parse_fixed(start, input, "}") {
            Some(end) => Some(Ok((RightBrace(Range { start, end }), end))),
            None => None,
        }
    }
}

/// The token `[`.
pub struct LeftBracket(Range<usize>);

impl Token for LeftBracket {
    open spec fn kind() -> TokenKind {
        TokenKind::LeftBracket
    }

    open spec fn scan(input: Seq<char>) -> Option<Result<nat, ErrorView>> {
        scan_fixed("["@, input)
    }

    closed spec fn range(&self) -> Range<usize> {
        self.0
    }

    proof fn scan_bounded(input: Seq<char>) {
    }

    proof fn span_is_payload(a: Self, b: Self) {
    }

    fn id() -> (k: TokenKind) {
        TokenKind::LeftBracket
    }

    fn span(&self) -> (r: &Range<usize>) {
        &self.0
    }

    fn from_span(span: Range<usize>) -> (t: Self) {
        LeftBracket(span)
    }

    fn parse<'a>(start: usize, input: &'a str) -> (r: Option<Result<(Self, usize), Error<'a>>>) {
        match parse_fixed(start, input, "[") {
            Some(end) => Some(Ok((LeftBracket(Range { start, end }), end))),
            None => None,
        }
    }
}

/// The token `]`.
pub struct RightBracket(Range<usize>);

impl Token for RightBracket {
    open spec fn kind() -> TokenKind {
        TokenKind::RightBracket
    }

    open spec fn scan(input: Seq<char>) -> Option<Result<nat, ErrorView>> {
        scan_fixed("]"@, input)
    }

    closed spec fn range(&self) -> Range<usize> {
        self.0
    }

    proof fn scan_bounded(input: Seq<char>) {
    }

    proof fn span_is_payload(a: Self, b: Self) {
    }

    fn id() -> (k: TokenKind) {
        TokenKind::RightBracket
    }

    fn span(&self) -> (r: &Range<usize>) {
        &self.0
    }

    fn from_span(span: Range<usize>) -> (t: Self) {
        RightBracket(span)
    }

    fn parse<'a>(start: usize, input: &'a str) -> (r: Option<Result<(Self, usize), Error<'a>>>) {
        match parse_fixed(start, input, "]") {
            Some(end) => Some(Ok((RightBracket(Range { start, end }), end))),
            None => None,
        }
    }
}

/// What an identifier gives at the front of a text: a run of alphabetic
/// characters, at least one.
pub open spec fn scan_ident(input: Seq<char>) -> Option<Result<nat, ErrorView>> {
    if run(input, CharClass::Alphabetic) > 0 {
        Some(Ok(run(input, CharClass::Alphabetic)))
    } else {
        None
    }
}

/// What a numeric literal gives at the front of a text: `0x` and hexadecimal
/// digits, `0b` and binary digits, or a decimal digit and a run of decimal
/// digits and dots.
pub open spec fn scan_number(input: Seq<char>) -> Option<Result<nat, ErrorView>> {
    if input.len() >= 2 && input[0] == '0' && input[1] == 'x' {
        Some(Ok(2 + run(input.skip(2), CharClass::Hex)))
    } else if input.len() >= 2 && input[0] == '0' && input[1] == 'b' {
        Some(Ok(2 + run(input.skip(2), CharClass::Binary)))
    } else if input.len() >= 1 && is_digit(input[0]) {
        Some(Ok(run(input, CharClass::Decimal)))
    } else {
        None
    }
}

/// An identifier.
pub struct Ident(Range<usize>);

impl Ident {
    /// The text of the identifier.
    pub fn eval<'a, const LOOKAHEAD: usize>(&self, lexer: &'a Lexer<'a, LOOKAHEAD>) -> (r: &'a str)
        requires
            self.range().start <= self.range().end,
            is_boundary(lexer@.text, self.range().start as int),
            is_boundary(lexer@.text, self.range().end as int),
        ensures
            r@ == token_text(lexer@.text, self.range()),
    {
        lexer.index(Range { start: self.0.start, end: self.0.end })
    }
}

impl Token for Ident {
    open spec fn kind() -> TokenKind {
        TokenKind::Ident
    }

    open spec fn scan(input: Seq<char>) -> Option<Result<nat, ErrorView>> {
        scan_ident(input)
    }

    closed spec fn range(&self) -> Range<usize> {
        self.0
    }

    proof fn scan_bounded(input: Seq<char>) {
        lemma_run_bounds(input, CharClass::Alphabetic);
    }

    proof fn span_is_payload(a: Self, b: Self) {
    }

    fn id() -> (k: TokenKind) {
        TokenKind::Ident
    }

    fn span(&self) -> (r: &Range<usize>) {
        &self.0
    }

    fn from_span(span: Range<usize>) -> (t: Self) {
        Ident(span)
    }

    fn parse<'a>(start: usize, input: &'a str) -> (r: Option<Result<(Self, usize), Error<'a>>>) {
        let n = scan_run(input, CharClass::Alphabetic);
        proof {
            let k = run(input@, CharClass::Alphabetic) as int;
            lemma_run_bounds(input@, CharClass::Alphabetic);
            lemma_offset_split(input@, k, 0);
            if k > 0 {
                lemma_offset_monotone(input@, 0, k);
            }
            assert(input@.take(0) =~= Seq::<char>::empty());
        }
        if n == 0 {
            None
        } else {
            let end = start + n;
            Some(Ok((Ident(Range { start, end }), end)))
        }
    }
}

/// A numeric literal.
pub struct Number(Range<usize>);

impl Number {
    /// The number that the literal writes, if it is well formed and fits.
    pub fn eval<'a, const LOOKAHEAD: usize>(&self, lexer: &'a Lexer<'a, LOOKAHEAD>) -> (r: Option<
        u64,
    >)
        requires
            self.range().start <= self.range().end,
            is_boundary(lexer@.text, self.range().start as int),
            is_boundary(lexer@.text, self.range().end as int),
        ensures
            r == match literal_value(token_text(lexer@.text, self.range())) {
                Some(v) => if v <= u64::MAX {
                    Some(v as u64)
                } else {
                    None
                },
                None => None,
            },
    {
        literal(lexer.index(Range { start: self.0.start, end: self.0.end }))
    }

    /// The end of a literal that begins with a two-letter prefix, which
    /// digits of `class` follow.
    fn after_prefix(start: usize, input: &str, skip: usize, class: CharClass) -> (end: usize)
        requires
            start + byte_len(input@) <= usize::MAX,
            input@.len() >= 2,
            skip == offset_of(input@, 2),
        ensures
            end == start + offset_of(input@, (2 + run(input@.skip(2), class)) as int),
    {
        let rest = suffix(input, skip, Ghost(2));
        let n = scan_run(rest, class);
        proof {
            lemma_run_bounds(rest@, class);
            lemma_offset_split(input@, 2, run(rest@, class) as int);
        }
        start + skip + n
    }
}

impl Token for Number {
    open spec fn kind() -> TokenKind {
        TokenKind::Number
    }

    open spec fn scan(input: Seq<char>) -> Option<Result<nat, ErrorView>> {
        scan_number(input)
    }

    closed spec fn range(&self) -> Range<usize> {
        self.0
    }

    proof fn scan_bounded(input: Seq<char>) {
        lemma_run_bounds(input, CharClass::Decimal);
        if input.len() >= 2 {
            lemma_run_bounds(input.skip(2), CharClass::Hex);
            lemma_run_bounds(input.skip(2), CharClass::Binary);
        }
    }

    proof fn span_is_payload(a: Self, b: Self) {
    }

    fn id() -> (k: TokenKind) {
        TokenKind::Number
    }

    fn span(&self) -> (r: &Range<usize>) {
        &self.0
    }

    fn from_span(span: Range<usize>) -> (t: Self) {
        Number(span)
    }

    fn parse<'a>(start: usize, input: &'a str) -> (r: Option<Result<(Self, usize), Error<'a>>>) {
        if let Some((radix, skip)) = marker(input) {
            let class = if radix == 16 {
                CharClass::Hex
            } else {
                CharClass::Binary
            };
            let end = Self::after_prefix(start, input, skip, class);
            return Some(Ok((Number(Range { start, end }), end)));
        }
        match first_char(input) {
            Some(c) => {
                if '0' <= c && c <= '9' {
                    let n = scan_run(input, CharClass::Decimal);
                    proof {
                        lemma_run_bounds(input@, CharClass::Decimal);
                        lemma_offset_split(input@, run(input@, CharClass::Decimal) as int, 0);
                    }
                    let end = start + n;
                    Some(Ok((Number(Range { start, end }), end)))
                } else {
                    None
                }
            },
            None => None,
        }
    }
}

} // verus!
