use lookahead_lexer::error::Error;
use lookahead_lexer::lexer::tokens::{
    EqualEqual, Ident, LeftParen, Minus, Number, Plus, PlusEqual, Slash, Star,
};
use lookahead_lexer::lexer::{Lexer, Token, TokenBox, TokenKind};

#[test]
fn lexer() {
    let mut lexer = Lexer::<1>::new("a + b == 0x100");
    let a = lexer.get::<Ident>().unwrap().unwrap();
    let _plus = lexer.get::<Plus>().unwrap().unwrap();
    let b = lexer.get::<Ident>().unwrap().unwrap();
    let _eq = lexer.get::<EqualEqual>().unwrap().unwrap();
    let c = lexer.get::<Number>().unwrap().unwrap();
    assert_eq!(a.eval(&lexer), "a");
    assert_eq!(b.eval(&lexer), "b");
    assert_eq!(c.eval(&lexer), Some(0x100));
}

#[test]
fn sequential_get_gives_the_spans_in_order() {
    let mut lexer = Lexer::<1>::new("a + b == 0x100");
    let a = lexer.get::<Ident>().unwrap().unwrap();
    assert_eq!(*a.span(), 0..1);
    let plus = lexer.get::<Plus>().unwrap().unwrap();
    assert_eq!(*plus.span(), 2..3);
    let b = lexer.get::<Ident>().unwrap().unwrap();
    assert_eq!(*b.span(), 4..5);
    let eq = lexer.get::<EqualEqual>().unwrap().unwrap();
    assert_eq!(*eq.span(), 6..8);
    let c = lexer.get::<Number>().unwrap().unwrap();
    assert_eq!(*c.span(), 9..14);
    assert_eq!(c.eval(&lexer), Some(256));
    assert!(lexer.get::<Ident>().is_none());
    assert_eq!(lexer.buffered(), 0);
}

#[test]
fn single_character_operators_skip_the_gaps() {
    let mut lexer = Lexer::<1>::new("++ -- ** //");
    let mut spans = Vec::new();
    spans.push(lexer.get::<Plus>().unwrap().unwrap().span().clone());
    spans.push(lexer.get::<Plus>().unwrap().unwrap().span().clone());
    spans.push(lexer.get::<Minus>().unwrap().unwrap().span().clone());
    spans.push(lexer.get::<Minus>().unwrap().unwrap().span().clone());
    spans.push(lexer.get::<Star>().unwrap().unwrap().span().clone());
    spans.push(lexer.get::<Star>().unwrap().unwrap().span().clone());
    spans.push(lexer.get::<Slash>().unwrap().unwrap().span().clone());
    spans.push(lexer.get::<Slash>().unwrap().unwrap().span().clone());
    assert_eq!(spans, vec![0..1, 1..2, 3..4, 4..5, 6..7, 7..8, 9..10, 10..11]);
    assert!(lexer.get::<Slash>().is_none());
}

#[test]
fn digits_are_no_identifier() {
    let mut lexer = Lexer::<1>::new("123");
    assert!(lexer.get::<Ident>().is_none());
    assert!(lexer.peek::<Ident>().is_none());
    assert_eq!(lexer.buffered(), 0);
    let n = lexer.get::<Number>().unwrap().unwrap();
    assert_eq!(*n.span(), 0..3);
    assert_eq!(n.eval(&lexer), Some(123));
}

#[test]
fn repeated_peek_gives_the_same_token() {
    let mut lexer = Lexer::<1>::new("foo  bar");
    let first = lexer.peek::<Ident>().unwrap().unwrap().span().clone();
    assert_eq!(first, 0..3);
    assert_eq!(lexer.buffered(), 1);
    let second = lexer.peek::<Ident>().unwrap().unwrap().span().clone();
    let third = lexer.peek::<Ident>().unwrap().unwrap().span().clone();
    assert_eq!(second, first);
    assert_eq!(third, first);
    assert_eq!(lexer.buffered(), 1);
}

#[test]
fn get_after_peek_takes_the_peeked_token() {
    let mut lexer = Lexer::<1>::new("foo  bar");
    let peeked = lexer.peek::<Ident>().unwrap().unwrap().span().clone();
    let _again = lexer.peek::<Ident>().unwrap().unwrap();
    assert_eq!(lexer.buffered(), 1);
    let taken = lexer.get::<Ident>().unwrap().unwrap();
    assert_eq!(*taken.span(), peeked);
    assert_eq!(lexer.buffered(), 0);
    let next = lexer.get::<Ident>().unwrap().unwrap();
    assert_eq!(*next.span(), 5..8);
    assert_eq!(next.eval(&lexer), "bar");
}

#[test]
fn white_space_stays_out_of_the_next_span() {
    let mut lexer = Lexer::<1>::new("x \t\n  +=\u{a0}\u{2003}y");
    let x = lexer.get::<Ident>().unwrap().unwrap();
    assert_eq!(*x.span(), 0..1);
    let op = lexer.get::<PlusEqual>().unwrap().unwrap();
    assert_eq!(*op.span(), 6..8);
    let y = lexer.get::<Ident>().unwrap().unwrap();
    assert_eq!(*y.span(), 13..14);
    assert_eq!(y.eval(&lexer), "y");
}

#[test]
fn leading_white_space_is_not_skipped_at_the_start() {
    let mut lexer = Lexer::<1>::new(" a");
    assert!(lexer.get::<Ident>().is_none());
}

#[test]
fn a_fresh_lexer_on_the_remainder_finds_the_same_tokens() {
    let text = "alpha + beta";
    let mut whole = Lexer::<1>::new(text);
    let first = whole.get::<Ident>().unwrap().unwrap();
    let offset = 6;
    assert_eq!(*first.span(), 0..5);
    let mut fresh = Lexer::<1>::new(&text[offset..]);
    let plus_whole = whole.get::<Plus>().unwrap().unwrap();
    let plus_fresh = fresh.get::<Plus>().unwrap().unwrap();
    assert_eq!(plus_whole.span().start, plus_fresh.span().start + offset);
    assert_eq!(plus_whole.span().end, plus_fresh.span().end + offset);
    let beta_whole = whole.get::<Ident>().unwrap().unwrap();
    let beta_fresh = fresh.get::<Ident>().unwrap().unwrap();
    assert_eq!(*beta_whole.span(), 8..12);
    assert_eq!(*beta_fresh.span(), 2..6);
    assert_eq!(beta_whole.eval(&whole), beta_fresh.eval(&fresh));
}

#[test]
fn lookahead_depths_are_filled_in_order() {
    let mut lexer = Lexer::<3>::new("a + b");
    assert_eq!(lexer.buffered(), 0);
    assert!(!lexer.holds::<Ident>(0));
    assert!(!lexer.holds::<Ident>(2));
    assert!(lexer.can_peek_n::<Ident>(0));
    assert!(!lexer.can_peek_n::<Ident>(1));
    assert!(!lexer.can_peek_n::<Ident>(2));
    let a = lexer.peek_n::<Ident>(0).unwrap().unwrap();
    assert!(lexer.can_peek_n::<Ident>(0));
    assert!(!lexer.can_peek_n::<Plus>(0));
    assert!(lexer.can_peek_n::<Plus>(1));
    assert!(!lexer.can_peek_n::<Plus>(2));
    assert_eq!(*a.span(), 0..1);
    assert_eq!(lexer.buffered(), 1);
    let plus = lexer.peek_n::<Plus>(1).unwrap().unwrap();
    assert_eq!(*plus.span(), 2..3);
    let b = lexer.peek_n::<Ident>(2).unwrap().unwrap();
    assert_eq!(*b.span(), 4..5);
    assert_eq!(lexer.buffered(), 3);
    assert!(!lexer.can_peek_n::<Ident>(3));
    assert_eq!(lexer.input(), "a + b");
    assert!(lexer.holds::<Ident>(0));
    assert!(lexer.holds::<Plus>(1));
    assert!(!lexer.holds::<Plus>(2));
    assert!(lexer.holds::<Ident>(2));
    let again = lexer.peek_n::<Plus>(1).unwrap().unwrap();
    assert_eq!(*again.span(), 2..3);
    assert_eq!(lexer.buffered(), 3);
    assert_eq!(*lexer.get::<Ident>().unwrap().unwrap().span(), 0..1);
    assert_eq!(*lexer.get::<Plus>().unwrap().unwrap().span(), 2..3);
    assert_eq!(*lexer.get::<Ident>().unwrap().unwrap().span(), 4..5);
    assert_eq!(lexer.buffered(), 0);
}

#[test]
fn peek_of_an_absent_kind_leaves_the_lexer_as_it_was() {
    let mut lexer = Lexer::<2>::new("(x");
    assert!(lexer.peek::<Ident>().is_none());
    assert_eq!(lexer.buffered(), 0);
    let open = lexer.peek::<LeftParen>().unwrap().unwrap();
    assert_eq!(*open.span(), 0..1);
    let x = lexer.peek::<Ident>().unwrap().unwrap();
    assert_eq!(*x.span(), 1..2);
    assert_eq!(lexer.buffered(), 2);
}

#[test]
fn spans_count_bytes_of_wide_characters() {
    let mut lexer = Lexer::<1>::new("\u{e9}t\u{e9} + \u{4e16}\u{754c}");
    let a = lexer.get::<Ident>().unwrap().unwrap();
    assert_eq!(*a.span(), 0..5);
    assert_eq!(a.eval(&lexer), "\u{e9}t\u{e9}");
    let plus = lexer.get::<Plus>().unwrap().unwrap();
    assert_eq!(*plus.span(), 6..7);
    let b = lexer.get::<Ident>().unwrap().unwrap();
    assert_eq!(*b.span(), 8..14);
    assert_eq!(b.eval(&lexer), "\u{4e16}\u{754c}");
    assert_eq!(lexer.index(6..7), "+");
}

#[test]
fn a_compound_operator_wins_only_where_it_is_asked_for() {
    let mut lexer = Lexer::<1>::new("+=");
    let plus = lexer.get::<Plus>().unwrap().unwrap();
    assert_eq!(*plus.span(), 0..1);
    assert!(lexer.get::<Plus>().is_none());
    let mut lexer = Lexer::<1>::new("+=");
    let both = lexer.get::<PlusEqual>().unwrap().unwrap();
    assert_eq!(*both.span(), 0..2);
}

#[test]
fn a_cell_keeps_kind_and_span() {
    let cell = TokenBox::new(Ident::from_span(3..7));
    assert!(cell.is::<Ident>());
    assert!(!cell.is::<Number>());
    assert!(!cell.is::<Plus>());
    let seen: Ident = cell.downcast_ref();
    assert_eq!(*seen.span(), 3..7);
    let taken: Ident = cell.downcast();
    assert_eq!(*taken.span(), 3..7);
    assert_eq!(Ident::id(), TokenKind::Ident);
    assert_eq!(Number::id(), TokenKind::Number);
}

#[test]
fn parse_gives_the_offset_past_the_token() {
    let (t, end) = Ident::parse(10, "abc def").unwrap().unwrap();
    assert_eq!(*t.span(), 10..13);
    assert_eq!(end, 13);
    let (n, end) = Number::parse(4, "0b1012").unwrap().unwrap();
    assert_eq!(*n.span(), 4..9);
    assert_eq!(end, 9);
    let (n, end) = Number::parse(0, "3.14)").unwrap().unwrap();
    assert_eq!(*n.span(), 0..4);
    assert_eq!(end, 4);
    let (n, _) = Number::parse(0, "0xfFg").unwrap().unwrap();
    assert_eq!(*n.span(), 0..4);
    let (n, _) = Number::parse(0, "0x").unwrap().unwrap();
    assert_eq!(*n.span(), 0..2);
    assert!(Number::parse(0, ".5").is_none());
    assert!(Number::parse(0, "x1").is_none());
    assert!(Number::parse(0, "").is_none());
    assert!(Ident::parse(0, "").is_none());
    assert!(Ident::parse(0, "_a").is_none());
    assert!(EqualEqual::parse(0, "=").is_none());
    assert!(EqualEqual::parse(0, "==").is_some());
}

#[test]
fn an_error_gives_its_parts() {
    let e = Error::UnexpectedToken { unexpected: "0xg", expected: "a hexadecimal digit" };
    assert_eq!(e.unexpected(), "0xg");
    assert_eq!(e.expected(), "a hexadecimal digit");
}
