//! The token contract, the cell that holds a token of any kind, and the
//! lexer engine with its lookahead buffer.
pub mod tokens;

use crate::error::{Error, ErrorView};
use crate::queue::{
    queue_back, queue_capacity, queue_get, queue_items, queue_len, queue_new, queue_pop_front,
    queue_push_back, TokenQueue,
};
use crate::text::{
    byte_len, byte_length, char_index, is_boundary, lemma_char_index, lemma_offset_split,
    lemma_run_bounds, offset_of, run, scan_run, slice, suffix, whitespace, CharClass,
};
use core::ops::Range;
use vstd::prelude::*;

verus! {

/// The identity of a token kind.
#[derive(Clone, Copy, Debug, PartialEq, Eq, Structural)]
pub enum TokenKind {
    Plus,
    Minus,
    Star,
    Slash,
    Percent,
    PlusEqual,
    MinusEqual,
    StarEqual,
    SlashEqual,
    PercentEqual,
    EqualEqual,
    BangEqual,
    LessEqual,
    GreaterEqual,
    AndAnd,
    OrOr,
    Bang,
    ColonEqual,
    Less,
    Greater,
    Semicolon,
    Comma,
    Dot,
    Colon,
    LeftParen,
    RightParen,
    LeftBrace,
    RightBrace,
    LeftBracket,
    RightBracket,
    Ident,
    Number,
}

/// What every token kind supplies: its identity, its span, how to rebuild a
/// token from a span, and how to recognise the kind at the front of a text.
pub trait Token: Sized {
    /// The identity of this kind.
    spec fn kind() -> TokenKind;

    /// What stands at the front of `input`: nothing of this kind (`None`), a
    /// malformed token, or a token that is `n` characters long.
    spec fn scan(input: Seq<char>) -> Option<Result<nat, ErrorView>>;

    /// The bytes `[start, end)` of the input that the token occupies.
    spec fn range(&self) -> Range<usize>;

    /// A recognised token lies within the text.
    proof fn scan_bounded(input: Seq<char>)
        ensures
            Self::scan(input) matches Some(Ok(n)) ==> n <= input.len(),
    ;

    /// A token holds nothing but its span.
    proof fn span_is_payload(a: Self, b: Self)
        ensures
            a.range() == b.range() ==> a == b,
    ;

    fn id() -> (k: TokenKind)
        ensures
            k == Self::kind(),
    ;

    fn span(&self) -> (r: &Range<usize>)
        ensures
            *r == self.range(),
    ;

    /// The token of this kind that occupies `span`.
    fn from_span(span: Range<usize>) -> (t: Self)
        ensures
            t.range() == span,
    ;

    /// Recognises this kind at the front of `input`, which begins at byte
    /// `start` of the whole text. A match comes with the offset just past it.
    fn parse<'a>(start: usize, input: &'a str) -> (r: Option<Result<(Self, usize), Error<'a>>>)
        requires
            start + byte_len(input@) <= usize::MAX,
        ensures
            match Self::scan(input@) {
                None => r is None,
                Some(Err(e)) => r matches Some(Err(err)) && err@ == e,
                Some(Ok(n)) => r matches Some(Ok((t, end))) && end == start + offset_of(
                    input@,
                    n as int,
                ) && t.range().start == start && t.range().end == end,
            },
    ;
}

/// The payload of a cell: two machine words, which every token kind fits.
#[derive(Clone, Copy, Debug)]
pub struct Aligned16Bytes(pub usize, pub usize);

/// What a cell holds: the kind of the token and its span.
pub struct CellView {
    pub kind: TokenKind,
    pub span: Range<usize>,
}

/// A cell that holds one token of any kind.
#[derive(Clone, Copy, Debug)]
pub struct TokenBox {
    data: Aligned16Bytes,
    type_id: TokenKind,
}

impl View for TokenBox {
    type V = CellView;

    closed spec fn view(&self) -> CellView {
        CellView { kind: self.type_id, span: Range { start: self.data.0, end: self.data.1 } }
    }
}

impl TokenBox {
    /// Stores a token, with the identity of its kind beside it.
    pub fn new<T: Token>(value: T) -> (cell: Self)
        ensures
            cell@.kind == T::kind(),
            cell@.span == value.range(),
    {
        let span = value.span();
        TokenBox { data: Aligned16Bytes(span.start, span.end), type_id: T::id() }
    }

    /// Whether the stored token is of kind `T`.
    pub fn is<T: Token>(&self) -> (r: bool)
        ensures
            r == (self@.kind == T::kind()),
    {
        self.type_id == T::id()
    }

    /// The stored token, read as kind `T` and taken out of the cell.
    pub fn downcast<T: Token>(self) -> (t: T)
        requires
            self@.kind == T::kind(),
        ensures
            t.range() == self@.span,
    {
        T::from_span(Range { start: self.data.0, end: self.data.1 })
    }

    /// The stored token, read as kind `T`; the cell keeps it.
    pub fn downcast_ref<T: Token>(&self) -> (t: T)
        requires
            self@.kind == T::kind(),
        ensures
            t.range() == self@.span,
    {
        T::from_span(Range { start: self.data.0, end: self.data.1 })
    }
}


/// The characters of a text that a span of bytes covers.
pub open spec fn token_text(text: Seq<char>, span: Range<usize>) -> Seq<char> {
    text.subrange(char_index(text, span.start as int), char_index(text, span.end as int))
}

/// Whether the bytes from `from` to `to` are whole characters, all of them
/// white space.
pub open spec fn blank(text: Seq<char>, from: int, to: int) -> bool {
    &&& from <= to
    &&& is_boundary(text, from)
    &&& is_boundary(text, to)
    &&& forall|c: int|
        char_index(text, from) <= c < char_index(text, to) ==> whitespace(#[trigger] text[c])
}

/// What a call gives: no token of the kind, a malformed token, or the span
/// of the token.
pub type Outcome = Option<Result<Range<usize>, ErrorView>>;

/// The outcome that a returned value stands for.
pub open spec fn outcome<'a, T: Token>(r: Option<Result<T, Error<'a>>>) -> Outcome {
    match r {
        None => None,
        Some(Err(e)) => Some(Err(e@)),
        Some(Ok(t)) => Some(Ok(t.range())),
    }
}

/// The state of a lexer: its text, the index of the first character that is
/// not consumed, and the cells that were parsed and not taken yet.
pub struct LexerView {
    pub text: Seq<char>,
    pub cursor: int,
    pub buffered: Seq<CellView>,
}

impl LexerView {
    /// The byte offset of the cursor.
    pub open spec fn index(self) -> nat {
        offset_of(self.text, self.cursor)
    }

    /// The text that is not consumed.
    pub open spec fn rest(self) -> Seq<char> {
        self.text.skip(self.cursor)
    }

    /// The cursor is in the text, the buffer holds at most `capacity` cells,
    /// and the buffered spans follow each other, all before the cursor.
    pub open spec fn wf(self, capacity: nat) -> bool {
        &&& 0 <= self.cursor <= self.text.len()
        &&& byte_len(self.text) <= usize::MAX
        &&& self.buffered.len() <= capacity
        &&& forall|i: int|
            0 <= i < self.buffered.len() ==> (#[trigger] self.buffered[i]).span.start
                <= self.buffered[i].span.end <= self.index()
        &&& forall|i: int, j: int|
            0 <= i < j < self.buffered.len() ==> (#[trigger] self.buffered[i]).span.end <= (
            #[trigger] self.buffered[j]).span.start
    }

    /// The byte at which the text after the cell at position `i` is taken up
    /// again: the start of the next cell, or the cursor after the newest.
    pub open spec fn follower(self, i: int) -> int {
        if i + 1 < self.buffered.len() {
            self.buffered[i + 1].span.start as int
        } else {
            self.index() as int
        }
    }

    /// Every buffered span begins where a character begins, and only white
    /// space lies between its end and what follows it.
    pub open spec fn contiguous(self) -> bool {
        forall|i: int|
            0 <= i < self.buffered.len() ==> is_boundary(
                self.text,
                (#[trigger] self.buffered[i]).span.start as int,
            ) && blank(self.text, self.buffered[i].span.end as int, self.follower(i))
    }

    /// The span of a token of `n` characters at the cursor.
    pub open spec fn span_for(self, n: nat) -> Range<usize> {
        Range {
            start: self.index() as usize,
            end: offset_of(self.text, self.cursor + n) as usize,
        }
    }

    /// The state after `n` characters and the white space behind them are
    /// consumed.
    pub open spec fn advanced(self, n: nat) -> LexerView {
        LexerView {
            cursor: self.cursor + n + run(self.text.skip(self.cursor + n), CharClass::Whitespace),
            ..self
        }
    }

    /// Recognising kind `T` at the cursor and consuming it.
    pub open spec fn take<T: Token>(self) -> (LexerView, Outcome) {
        match T::scan(self.rest()) {
            None => (self, None),
            Some(Err(e)) => (self, Some(Err(e))),
            Some(Ok(n)) => (self.advanced(n), Some(Ok(self.span_for(n)))),
        }
    }

    /// Recognising kind `T` at the cursor, consuming it and buffering it.
    pub open spec fn fetch<T: Token>(self) -> (LexerView, Outcome) {
        match T::scan(self.rest()) {
            None => (self, None),
            Some(Err(e)) => (self, Some(Err(e))),
            Some(Ok(n)) => (
                LexerView {
                    buffered: self.buffered.push(
                        CellView { kind: T::kind(), span: self.span_for(n) },
                    ),
                    ..self.advanced(n)
                },
                Some(Ok(self.span_for(n))),
            ),
        }
    }

    /// Whether position `n` of the buffer holds a token of kind `T`.
    pub open spec fn holds<T: Token>(self, n: int) -> bool {
        0 <= n < self.buffered.len() && self.buffered[n].kind == T::kind()
    }

    /// Whether the newest cell of the buffer holds a token of kind `T`.
    pub open spec fn holds_last<T: Token>(self) -> bool {
        self.holds::<T>(self.buffered.len() - 1)
    }

    /// What `peek` does and gives.
    pub open spec fn peek<T: Token>(self) -> (LexerView, Outcome) {
        if self.holds_last::<T>() {
            (self, Some(Ok(self.buffered.last().span)))
        } else {
            self.fetch::<T>()
        }
    }

    /// What `peek_n` does and gives at depth `n`.
    pub open spec fn peek_n<T: Token>(self, n: int) -> (LexerView, Outcome) {
        if self.holds::<T>(n) {
            (self, Some(Ok(self.buffered[n].span)))
        } else {
            self.fetch::<T>()
        }
    }

    /// What `get` does and gives.
    pub open spec fn get<T: Token>(self) -> (LexerView, Outcome) {
        if self.holds::<T>(0) {
            (LexerView { buffered: self.buffered.drop_first(), ..self }, Some(Ok(self.buffered[0].span)))
        } else {
            self.take::<T>()
        }
    }

    /// Whether a token of kind `T` stands at the cursor and the buffer has
    /// no room for it.
    pub open spec fn overflows<T: Token>(self, capacity: nat) -> bool {
        self.buffered.len() >= capacity && T::scan(self.rest()) matches Some(Ok(_))
    }
}

/// A lexer over a text, with a buffer for `LOOKAHEAD` tokens.
pub struct Lexer<'a, const LOOKAHEAD: usize> {
    input: &'a str,
    index: usize,
    buf: TokenQueue,
    cursor: Ghost<int>,
}

impl<'a, const LOOKAHEAD: usize> View for Lexer<'a, LOOKAHEAD> {
    type V = LexerView;

    closed spec fn view(&self) -> LexerView {
        LexerView {
            text: self.input@,
            cursor: self.cursor@,
            buffered: queue_items(&self.buf).map_values(|c: TokenBox| c@),
        }
    }
}

impl<'a, const LOOKAHEAD: usize> Lexer<'a, LOOKAHEAD> {
    /// The byte offset agrees with the cursor, and the buffer was made for
    /// `LOOKAHEAD` cells.
    pub closed spec fn inv(&self) -> bool {
        &&& self.index == self@.index()
        &&& queue_capacity(&self.buf) == LOOKAHEAD
    }

    /// The state is in order but for the gaps between the buffered spans.
    pub open spec fn sound(&self) -> bool {
        self@.wf(LOOKAHEAD as nat) && self.inv()
    }

    /// The state that every operation expects and leaves behind.
    pub open spec fn wf(&self) -> bool {
        self.sound() && self@.contiguous()
    }

    /// A lexer at the start of `input`, with an empty buffer.
    pub fn new(input: &'a str) -> (lexer: Self)
        requires
            LOOKAHEAD > 0,
        ensures
            lexer.wf(),
            lexer@ == (LexerView { text: input@, cursor: 0, buffered: Seq::empty() }),
    {
        let _total = byte_length(input);
        let lexer = Lexer { input, index: 0, buf: queue_new::<LOOKAHEAD>(), cursor: Ghost(0) };
        proof {
            assert(input@.take(0) =~= Seq::<char>::empty());
            assert(lexer@.buffered =~= Seq::<CellView>::empty());
        }
        lexer
    }

    /// The whole text.
    pub fn input(&self) -> (r: &'a str)
        ensures
            r@ == self@.text,
    {
        self.input
    }

    /// The number of tokens in the buffer.
    pub fn buffered(&self) -> (n: usize)
        ensures
            n == self@.buffered.len(),
    {
        queue_len(&self.buf)
    }

    /// Whether position `n` of the buffer holds a token of kind `T`.
    pub fn holds<T: Token>(&self, n: usize) -> (r: bool)
        ensures
            r == self@.holds::<T>(n as int),
    {
        match queue_get(&self.buf, n) {
            Some(cell) => cell.is::<T>(),
            None => false,
        }
    }

    /// Whether `peek_n` may be asked for kind `T` at depth `n`: the buffer
    /// holds such a token there, or `n` is the next depth and a cell is free.
    pub fn can_peek_n<T: Token>(&self, n: usize) -> (r: bool)
        ensures
            r == (self@.holds::<T>(n as int) || (self@.buffered.len() == n && n < LOOKAHEAD)),
            r ==> self@.holds::<T>(n as int) || (self@.buffered.len() == n && !self@.overflows::<T>(
                LOOKAHEAD as nat,
            )),
    {
        self.holds::<T>(n) || (queue_len(&self.buf) == n && n < LOOKAHEAD)
    }

    /// The next token, if it is of kind `T`; it stays in the buffer. A token
    /// that the newest cell of the buffer already holds is not parsed again.
    pub fn peek<T: Token>(&mut self) -> (r: Option<Result<T, Error<'a>>>)
        requires
            old(self).wf(),
            old(self)@.holds_last::<T>() || !old(self)@.overflows::<T>(LOOKAHEAD as nat),
        ensures
            final(self).wf(),
            (final(self)@, outcome(r)) == old(self)@.peek::<T>(),
    {
        match queue_back(&self.buf) {
            Some(cell) => {
                if cell.is::<T>() {
                    return Some(Ok(cell.downcast_ref::<T>()));
                }
            },
            None => {},
        }
        self.fetch::<T>()
    }

    /// The token at depth `n` of the lookahead, if it is of kind `T`. Depths
    /// are filled in order: a new token is parsed only at depth
    /// `self.buffered()`.
    pub fn peek_n<T: Token>(&mut self, n: usize) -> (r: Option<Result<T, Error<'a>>>)
        requires
            old(self).wf(),
            old(self)@.holds::<T>(n as int) || (old(self)@.buffered.len() == n && !old(
                self,
            )@.overflows::<T>(LOOKAHEAD as nat)),
        ensures
            final(self).wf(),
            (final(self)@, outcome(r)) == old(self)@.peek_n::<T>(n as int),
    {
        match queue_get(&self.buf, n) {
            Some(cell) => {
                if cell.is::<T>() {
                    return Some(Ok(cell.downcast_ref::<T>()));
                }
            },
            None => {},
        }
        self.fetch::<T>()
    }

    /// Takes the next token, if it is of kind `T`: out of the buffer where
    /// its front holds one, else from the text at the cursor.
    pub fn get<T: Token>(&mut self) -> (r: Option<Result<T, Error<'a>>>)
        requires
            old(self).wf(),
            old(self)@.buffered.len() == 0 || old(self)@.holds::<T>(0),
        ensures
            final(self).wf(),
            (final(self)@, outcome(r)) == old(self)@.get::<T>(),
    {
        if self.holds::<T>(0) {
            let front = queue_pop_front(&mut self.buf);
            proof {
                assert(self@.buffered =~= old(self)@.buffered.drop_first());
                assert forall|i: int| 0 <= i < self@.buffered.len() implies (
                #[trigger] self@.buffered[i]).span.start <= self@.buffered[i].span.end
                    <= self@.index() by {
                    assert(self@.buffered[i] == old(self)@.buffered[i + 1]);
                }
                assert forall|i: int, j: int| 0 <= i < j < self@.buffered.len() implies (
                #[trigger] self@.buffered[i]).span.end <= (
                #[trigger] self@.buffered[j]).span.start by {
                    assert(self@.buffered[i] == old(self)@.buffered[i + 1]);
                    assert(self@.buffered[j] == old(self)@.buffered[j + 1]);
                }
                let v = old(self)@;
                let w = self@;
                assert forall|i: int| 0 <= i < w.buffered.len() implies is_boundary(
                    w.text,
                    (#[trigger] w.buffered[i]).span.start as int,
                ) && blank(w.text, w.buffered[i].span.end as int, w.follower(i)) by {
                    assert(w.buffered[i] == v.buffered[i + 1]);
                    assert(w.follower(i) == v.follower(i + 1));
                }
            }
            match front {
                Some(cell) => Some(Ok(cell.downcast::<T>())),
                None => None,
            }
        } else {
            self.take::<T>()
        }
    }

    /// Recognises kind `T` at the cursor, consumes it and buffers it.
    fn fetch<T: Token>(&mut self) -> (r: Option<Result<T, Error<'a>>>)
        requires
            old(self).wf(),
            !old(self)@.overflows::<T>(LOOKAHEAD as nat),
        ensures
            final(self).wf(),
            (final(self)@, outcome(r)) == old(self)@.fetch::<T>(),
    {
        match self.take::<T>() {
            None => None,
            Some(Err(e)) => Some(Err(e)),
            Some(Ok(token)) => {
                let cell = TokenBox::new(token);
                let ghost before = self@;
                let pushed = queue_push_back(&mut self.buf, cell);
                proof {
                    let v = old(self)@;
                    let n = T::scan(v.rest())->0->Ok_0;
                    T::scan_bounded(v.rest());
                    lemma_offset_split(v.text, v.cursor, n as int);
                    lemma_run_bounds(v.text.skip(v.cursor + n), CharClass::Whitespace);
                    lemma_offset_split(
                        v.text,
                        v.cursor + n,
                        run(v.text.skip(v.cursor + n), CharClass::Whitespace) as int,
                    );
                    assert(self@.buffered =~= before.buffered.push(cell@));
                    assert(pushed is Ok);
                    assert forall|i: int| 0 <= i < self@.buffered.len() implies (
                    #[trigger] self@.buffered[i]).span.start <= self@.buffered[i].span.end
                        <= self@.index() by {
                        if i < v.buffered.len() {
                            assert(self@.buffered[i] == v.buffered[i]);
                        }
                    }
                    assert forall|i: int, j: int| 0 <= i < j < self@.buffered.len() implies (
                    #[trigger] self@.buffered[i]).span.end <= (
                    #[trigger] self@.buffered[j]).span.start by {
                        assert(self@.buffered[i] == v.buffered[i]);
                        if j < v.buffered.len() {
                            assert(self@.buffered[j] == v.buffered[j]);
                        }
                    }
                    lemma_span_covers_match(v, n);
                    lemma_gap_is_blank(v, n);
                    let w = self@;
                    assert forall|i: int| 0 <= i < w.buffered.len() implies is_boundary(
                        w.text,
                        (#[trigger] w.buffered[i]).span.start as int,
                    ) && blank(w.text, w.buffered[i].span.end as int, w.follower(i)) by {
                        if i < v.buffered.len() {
                            assert(w.buffered[i] == v.buffered[i]);
                            assert(w.follower(i) == v.follower(i));
                        }
                    }
                }
                Some(Ok(cell.downcast_ref::<T>()))
            },
        }
    }

    /// The text that a span covers.
    pub fn index(&self, span: Range<usize>) -> (r: &'a str)
        requires
            span.start <= span.end,
            is_boundary(self@.text, span.start as int),
            is_boundary(self@.text, span.end as int),
        ensures
            r@ == token_text(self@.text, span),
    {
        slice(self.input, span.start, span.end)
    }

    /// Skips the white space at the cursor.
    fn trim(&mut self)
        requires
            old(self).sound(),
        ensures
            final(self).sound(),
            final(self)@ == old(self)@.advanced(0),
    {
        let rest = suffix(self.input, self.index, Ghost(self.cursor@));
        let n = scan_run(rest, CharClass::Whitespace);
        proof {
            let k = run(rest@, CharClass::Whitespace);
            lemma_run_bounds(rest@, CharClass::Whitespace);
            lemma_offset_split(self.input@, self.cursor@, k as int);
            self.cursor@ = self.cursor@ + k;
        }
        self.index = self.index + n;
    }

    /// Recognises kind `T` at the cursor and consumes it.
    fn take<T: Token>(&mut self) -> (r: Option<Result<T, Error<'a>>>)
        requires
            old(self).sound(),
        ensures
            final(self).sound(),
            (final(self)@, outcome(r)) == old(self)@.take::<T>(),
    {
        let rest = suffix(self.input, self.index, Ghost(self.cursor@));
        proof {
            lemma_offset_split(self.input@, self.cursor@, rest@.len() as int);
            assert(self.input@.take(self.input@.len() as int) =~= self.input@);
            assert(rest@.take(rest@.len() as int) =~= rest@);
        }
        match T::parse(self.index, rest) {
            None => None,
            Some(Err(e)) => Some(Err(e)),
            Some(Ok((token, end))) => {
                proof {
                    let n = T::scan(rest@)->0->Ok_0;
                    T::scan_bounded(rest@);
                    lemma_offset_split(self.input@, self.cursor@, n as int);
                    self.cursor@ = self.cursor@ + n;
                }
                self.index = end;
                self.trim();
                Some(Ok(token))
            },
        }
    }
}


/// Two results that stand for the same outcome hold the same token.
pub proof fn lemma_outcome_is_token<'a, T: Token>(
    r: Option<Result<T, Error<'a>>>,
    s: Option<Result<T, Error<'a>>>,
)
    requires
        outcome(r) == outcome(s),
        r is Some,
        r->0 is Ok,
    ensures
        s is Some,
        s->0 is Ok,
        r->0->Ok_0 == s->0->Ok_0,
{
    T::span_is_payload(r->0->Ok_0, s->0->Ok_0);
}

/// A second `peek` for the same kind finds the token of the first: the same
/// span, and the state as the first left it.
pub proof fn lemma_peek_repeats<T: Token>(v: LexerView)
    ensures
        v.peek::<T>().1 matches Some(Ok(_)) ==> v.peek::<T>().0.peek::<T>() == v.peek::<T>(),
{
}

/// A second `peek_n` for the same kind at the same depth finds the token of
/// the first, where the first was asked at a depth that the buffer holds or
/// at the next one.
pub proof fn lemma_peek_n_repeats<T: Token>(v: LexerView, n: int)
    requires
        v.holds::<T>(n) || n == v.buffered.len(),
    ensures
        v.peek_n::<T>(n).1 matches Some(Ok(_)) ==> v.peek_n::<T>(n).0.peek_n::<T>(n) == v.peek_n::<
            T,
        >(n),
{
}

/// After a `peek` at the front of the lookahead, where the buffer was empty
/// or held that one token, `get` for the same kind gives the same span and
/// takes exactly one cell out of the buffer.
pub proof fn lemma_get_after_peek<T: Token>(v: LexerView)
    requires
        v.buffered.len() == 0 || (v.buffered.len() == 1 && v.holds::<T>(0)),
    ensures
        v.peek::<T>().1 matches Some(Ok(_)) ==> {
            let peeked = v.peek::<T>().0;
            &&& peeked.get::<T>().1 == v.peek::<T>().1
            &&& peeked.get::<T>().0.buffered.len() == peeked.buffered.len() - 1
            &&& peeked.get::<T>().0.buffered =~= peeked.buffered.drop_first()
        },
{
}

/// The span of a token of `n` characters at the cursor begins and ends
/// where characters begin, and covers those `n` characters.
pub proof fn lemma_span_covers_match(v: LexerView, n: nat)
    requires
        0 <= v.cursor,
        v.cursor + n <= v.text.len(),
        byte_len(v.text) <= usize::MAX,
    ensures
        v.span_for(n).start <= v.span_for(n).end,
        is_boundary(v.text, v.span_for(n).start as int),
        is_boundary(v.text, v.span_for(n).end as int),
        token_text(v.text, v.span_for(n)) =~= v.rest().take(n as int),
{
    lemma_offset_split(v.text, v.cursor, n as int);
    lemma_char_index(v.text, v.cursor);
    lemma_char_index(v.text, v.cursor + n);
}

/// Between the end of a token of `n` characters at the cursor and the
/// cursor after it lies white space only.
pub proof fn lemma_gap_is_blank(v: LexerView, n: nat)
    requires
        0 <= v.cursor,
        v.cursor + n <= v.text.len(),
        byte_len(v.text) <= usize::MAX,
    ensures
        blank(v.text, v.span_for(n).end as int, v.advanced(n).index() as int),
{
    let gap = v.text.skip(v.cursor + n);
    let after = v.advanced(n).cursor;
    lemma_run_bounds(gap, CharClass::Whitespace);
    lemma_offset_split(v.text, v.cursor + n, after - (v.cursor + n));
    lemma_char_index(v.text, v.cursor + n);
    lemma_char_index(v.text, after);
    assert forall|c: int| v.cursor + n <= c < after implies whitespace(#[trigger] v.text[c]) by {
        assert(v.text[c] == gap[c - (v.cursor + n)]);
    }
}

/// Once a token is consumed, the cursor stands at the end of the text or at
/// a character that is no white space, and the span of the next token
/// begins there.
pub proof fn lemma_gap_is_skipped<T: Token>(v: LexerView, n: nat)
    requires
        0 <= v.cursor,
        v.cursor + n <= v.text.len(),
        byte_len(v.text) <= usize::MAX,
    ensures
        v.cursor + n <= v.advanced(n).cursor <= v.text.len(),
        forall|i: int| v.cursor + n <= i < v.advanced(n).cursor ==> whitespace(#[trigger] v.text[i]),
        v.advanced(n).cursor < v.text.len() ==> !whitespace(v.text[v.advanced(n).cursor]),
        v.advanced(n).take::<T>().1 matches Some(Ok(span)) ==> span.start == v.advanced(n).index(),
{
    let gap = v.text.skip(v.cursor + n);
    lemma_run_bounds(gap, CharClass::Whitespace);
    assert forall|i: int| v.cursor + n <= i < v.advanced(n).cursor implies whitespace(
        #[trigger] v.text[i],
    ) by {
        assert(v.text[i] == gap[i - (v.cursor + n)]);
    }
    lemma_offset_split(v.text, v.advanced(n).cursor, 0);
}

/// A lexer that starts afresh on the text that another has left finds what
/// that one finds next: the same outcome, with spans that count from the
/// start of the remainder, and the same text is left after it.
pub proof fn lemma_take_from_remainder<T: Token>(v: LexerView)
    requires
        v.wf(v.buffered.len()),
    ensures
        ({
            let fresh = LexerView { text: v.rest(), cursor: 0, buffered: Seq::empty() };
            &&& fresh.take::<T>().0.rest() =~= v.take::<T>().0.rest()
            &&& match (v.take::<T>().1, fresh.take::<T>().1) {
                (None, None) => true,
                (Some(Err(a)), Some(Err(b))) => a == b,
                (Some(Ok(a)), Some(Ok(b))) => a.start == v.index() + b.start && a.end == v.index()
                    + b.end,
                _ => false,
            }
        }),
{
    let fresh = LexerView { text: v.rest(), cursor: 0, buffered: Seq::<CellView>::empty() };
    assert(fresh.rest() =~= v.rest());
    assert(v.rest().take(0) =~= Seq::<char>::empty());
    match T::scan(v.rest()) {
        Some(Ok(n)) => {
            T::scan_bounded(v.rest());
            let gap = run(v.text.skip(v.cursor + n), CharClass::Whitespace);
            lemma_run_bounds(v.text.skip(v.cursor + n), CharClass::Whitespace);
            lemma_offset_split(v.text, v.cursor, n as int);
            assert(v.rest().skip(n as int) =~= v.text.skip(v.cursor + n));
            assert(v.rest().skip((n + gap) as int) =~= v.text.skip(v.cursor + n + gap));
        },
        _ => {},
    }
}

} // verus!
