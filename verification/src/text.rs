//! Text positions: the relation between character indices and byte offsets,
//! character classes, and scanning of a run of characters.
use vstd::prelude::*;
use vstd::std_specs::iter::IteratorSpec;
use vstd::string::*;
use vstd::utf8::*;

verus! {

/// The number of bytes that one character occupies in UTF-8.
pub open spec fn char_width(c: char) -> nat {
    encode_scalar(c as u32).len()
}

/// The number of bytes that a text occupies in UTF-8.
pub open spec fn byte_len(s: Seq<char>) -> nat {
    encode_utf8(s).len()
}

/// The byte offset at which the character with index `k` begins.
pub open spec fn offset_of(s: Seq<char>, k: int) -> nat {
    byte_len(s.take(k))
}

/// The encoding of a concatenation is the concatenation of the encodings.
pub proof fn lemma_encode_concat(a: Seq<char>, b: Seq<char>)
    ensures
        encode_utf8(a + b) =~= encode_utf8(a) + encode_utf8(b),
    decreases a.len(),
{
    if a.len() == 0 {
        assert(a + b =~= b);
    } else {
        assert((a + b).drop_first() =~= a.drop_first() + b);
        lemma_encode_concat(a.drop_first(), b);
    }
}

/// Every character occupies between one and four bytes.
pub proof fn lemma_char_width(c: char)
    ensures
        1 <= char_width(c) <= 4,
{
}

/// One more character moves the offset by that character's width.
pub proof fn lemma_offset_step(s: Seq<char>, k: int)
    requires
        0 <= k < s.len(),
    ensures
        offset_of(s, k + 1) == offset_of(s, k) + char_width(s[k]),
        offset_of(s, k + 1) <= byte_len(s),
{
    let one = seq![s[k]];
    assert(s.take(k + 1) =~= s.take(k) + one);
    lemma_encode_concat(s.take(k), one);
    assert(one.drop_first() =~= Seq::<char>::empty());
    assert(encode_utf8(one) =~= encode_scalar(s[k] as u32)) by {
        reveal_with_fuel(encode_utf8, 2);
    }
    assert(s =~= s.take(k + 1) + s.skip(k + 1));
    lemma_encode_concat(s.take(k + 1), s.skip(k + 1));
}

/// Offsets grow strictly with the character index.
pub proof fn lemma_offset_monotone(s: Seq<char>, i: int, j: int)
    requires
        0 <= i < j <= s.len(),
    ensures
        offset_of(s, i) < offset_of(s, j),
    decreases j - i,
{
    lemma_offset_step(s, j - 1);
    lemma_char_width(s[j - 1]);
    if i < j - 1 {
        lemma_offset_monotone(s, i, j - 1);
    }
}

/// The offset of a character index is a boundary of the encoded text.
pub proof fn lemma_offset_is_boundary(s: Seq<char>, k: int)
    requires
        0 <= k <= s.len(),
    ensures
        is_char_boundary(encode_utf8(s), offset_of(s, k) as int),
        offset_of(s, k) <= byte_len(s),
    decreases k,
{
    broadcast use encode_utf8_valid_utf8;

    assert(s =~= s.take(k) + s.skip(k));
    lemma_encode_concat(s.take(k), s.skip(k));
    if k == 0 {
        assert(s.take(0) =~= Seq::<char>::empty());
    } else {
        let bytes = encode_utf8(s);
        encode_utf8_first_scalar(s);
        assert(pop_first_scalar(bytes) =~= encode_utf8(s.drop_first()));
        lemma_offset_is_boundary(s.drop_first(), k - 1);
        assert(s.take(k).drop_first() =~= s.drop_first().take(k - 1));
        lemma_char_width(s[0]);
    }
}

/// The offset of a later character is the offset of an earlier one plus the
/// offset within the text that starts at the earlier one.
pub proof fn lemma_offset_split(s: Seq<char>, k: int, m: int)
    requires
        0 <= k,
        0 <= m,
        k + m <= s.len(),
    ensures
        offset_of(s, k + m) == offset_of(s, k) + offset_of(s.skip(k), m),
        offset_of(s, k + m) <= byte_len(s),
        s.skip(k).skip(m) =~= s.skip(k + m),
{
    assert(s.take(k + m) =~= s.take(k) + s.skip(k).take(m));
    lemma_encode_concat(s.take(k), s.skip(k).take(m));
    assert(s =~= s.take(k + m) + s.skip(k + m));
    lemma_encode_concat(s.take(k + m), s.skip(k + m));
}

/// The text from the character with index `k` on, where `at` is that
/// character's byte offset.
pub(crate) fn suffix<'a>(s: &'a str, at: usize, Ghost(k): Ghost<int>) -> (r: &'a str)
    requires
        0 <= k <= s@.len(),
        at == offset_of(s@, k),
    ensures
        r@ == s@.skip(k),
{
    broadcast use {encode_utf8_valid_utf8, encode_utf8_decode_utf8};

    proof {
        lemma_offset_is_boundary(s@, k);
        assert(s@ =~= s@.take(k) + s@.skip(k));
        lemma_encode_concat(s@.take(k), s@.skip(k));
    }
    let (_, r) = s.split_at(at);
    proof {
        assert(encode_utf8(r@) =~= encode_utf8(s@.skip(k)));
        assert(decode_utf8(encode_utf8(r@)) == r@);
        assert(decode_utf8(encode_utf8(s@.skip(k))) == s@.skip(k));
    }
    r
}


/// The byte length of a text, which fits a machine word.
pub fn byte_length(s: &str) -> (n: usize)
    ensures
        n == byte_len(s@),
{
    s.as_bytes().len()
}

/// The width in bytes of one character.
pub fn width_of(c: char) -> (w: usize)
    ensures
        w == char_width(c),
{
    broadcast use char_is_scalar;

    let v: u32 = c as u32;
    if v < 0x80 {
        1
    } else if v < 0x800 {
        2
    } else if v < 0x10000 {
        3
    } else {
        4
    }
}

/// Whether a character is alphabetic, as `char::is_alphabetic` decides it.
pub uninterp spec fn alphabetic(c: char) -> bool;

/// Whether a character is white space, as `char::is_whitespace` decides it.
pub uninterp spec fn whitespace(c: char) -> bool;

/// Calls `char::is_alphabetic`. The contract only gives the answer its name:
/// the same character always has the same answer.
#[verifier::external_body]
fn is_alphabetic(c: char) -> (r: bool)
    ensures
        r == alphabetic(c),
{
    c.is_alphabetic()
}

/// Calls `char::is_whitespace`. The contract only gives the answer its name:
/// the same character always has the same answer.
#[verifier::external_body]
fn is_whitespace(c: char) -> (r: bool)
    ensures
        r == whitespace(c),
{
    c.is_whitespace()
}

/// The classes of characters that tokens and the gaps between them are made of.
#[derive(Clone, Copy, Debug)]
pub enum CharClass {
    Alphabetic,
    Whitespace,
    Decimal,
    Hex,
    Binary,
}

pub open spec fn is_digit(c: char) -> bool {
    '0' <= c <= '9'
}

pub open spec fn is_hex_digit(c: char) -> bool {
    is_digit(c) || 'a' <= c <= 'f' || 'A' <= c <= 'F'
}

impl CharClass {
    /// Whether the character belongs to the class.
    pub open spec fn member(self, c: char) -> bool {
        match self {
            CharClass::Alphabetic => alphabetic(c),
            CharClass::Whitespace => whitespace(c),
            CharClass::Decimal => is_digit(c) || c == '.',
            CharClass::Hex => is_hex_digit(c),
            CharClass::Binary => c == '0' || c == '1',
        }
    }

    pub fn contains(self, c: char) -> (r: bool)
        ensures
            r == self.member(c),
    {
        match self {
            CharClass::Alphabetic => is_alphabetic(c),
            CharClass::Whitespace => is_whitespace(c),
            CharClass::Decimal => ('0' <= c && c <= '9') || c == '.',
            CharClass::Hex => ('0' <= c && c <= '9') || ('a' <= c && c <= 'f') || ('A' <= c
                && c <= 'F'),
            CharClass::Binary => c == '0' || c == '1',
        }
    }
}

/// The number of characters at the front of `s` that belong to `class`.
pub open spec fn run(s: Seq<char>, class: CharClass) -> nat
    decreases s.len(),
{
    if s.len() > 0 && class.member(s[0]) {
        1 + run(s.drop_first(), class)
    } else {
        0
    }
}

/// A run is as long as the first character outside the class is far.
pub proof fn lemma_run_is(s: Seq<char>, class: CharClass, k: int)
    requires
        0 <= k <= s.len(),
        forall|j: int| 0 <= j < k ==> class.member(#[trigger] s[j]),
        k < s.len() ==> !class.member(s[k]),
    ensures
        run(s, class) == k,
    decreases k,
{
    if k > 0 {
        lemma_run_is(s.drop_first(), class, k - 1);
    }
}

/// A run lies within the text, its characters belong to the class, and the
/// character after it, if there is one, does not.
pub proof fn lemma_run_bounds(s: Seq<char>, class: CharClass)
    ensures
        run(s, class) <= s.len(),
        forall|j: int| 0 <= j < run(s, class) ==> class.member(#[trigger] s[j]),
        run(s, class) < s.len() ==> !class.member(s[run(s, class) as int]),
    decreases s.len(),
{
    if s.len() > 0 && class.member(s[0]) {
        lemma_run_bounds(s.drop_first(), class);
        assert forall|j: int| 0 <= j < run(s, class) implies class.member(#[trigger] s[j]) by {
            if j > 0 {
                assert(s[j] == s.drop_first()[j - 1]);
            }
        }
        if run(s, class) < s.len() {
            assert(s.drop_first()[run(s, class) - 1] == s[run(s, class) as int]);
        }
    }
}

/// The byte length of the run of `class` at the front of `s`.
pub fn scan_run(s: &str, class: CharClass) -> (bytes: usize)
    ensures
        bytes == offset_of(s@, run(s@, class) as int),
{
    broadcast use group_string_axioms;

    let total = byte_length(s);
    let mut it = s.chars();
    let mut bytes: usize = 0;
    let ghost mut k: int = 0;
    proof {
        assert(s@.take(0) =~= Seq::<char>::empty());
        assert(s@.skip(0) =~= s@);
    }
    loop
        invariant_except_break
            it.remaining() == s@.skip(k),
        invariant
            0 <= k <= s@.len(),
            bytes == offset_of(s@, k),
            total == byte_len(s@),
            forall|j: int| 0 <= j < k ==> class.member(#[trigger] s@[j]),
        ensures
            bytes == offset_of(s@, run(s@, class) as int),
        decreases s@.len() - k,
    {
        let next = it.next();
        match next {
            Some(c) => {
                assert(c == s@[k]);
                if class.contains(c) {
                    proof {
                        lemma_offset_step(s@, k);
                        assert(s@.skip(k).drop_first() =~= s@.skip(k + 1));
                    }
                    bytes = bytes + width_of(c);
                    proof {
                        k = k + 1;
                    }
                } else {
                    proof {
                        lemma_run_is(s@, class, k);
                    }
                    break ;
                }
            },
            None => {
                proof {
                    lemma_run_is(s@, class, k);
                }
                break ;
            },
        }
    }
    bytes
}

/// The byte length of `pat`, if `s` begins with it.
pub fn match_prefix(s: &str, pat: &str) -> (r: Option<usize>)
    ensures
        r == if pat@.is_prefix_of(s@) {
            Some(byte_len(pat@) as usize)
        } else {
            None
        },
        pat@.is_prefix_of(s@) ==> byte_len(pat@) == offset_of(s@, pat@.len() as int),
        pat@.is_prefix_of(s@) ==> byte_len(pat@) <= byte_len(s@),
{
    broadcast use group_string_axioms;

    let total = byte_length(s);
    let mut it = s.chars();
    let mut pit = pat.chars();
    let mut bytes: usize = 0;
    let ghost mut k: int = 0;
    proof {
        assert(s@.take(0) =~= Seq::<char>::empty());
        assert(s@.skip(0) =~= s@);
        assert(pat@.skip(0) =~= pat@);
    }
    loop
        invariant
            0 <= k <= s@.len(),
            k <= pat@.len(),
            it.remaining() == s@.skip(k),
            pit.remaining() == pat@.skip(k),
            s@.take(k) =~= pat@.take(k),
            bytes == offset_of(s@, k),
            total == byte_len(s@),
        decreases pat@.len() - k,
    {
        let want = pit.next();
        match want {
            None => {
                proof {
                    assert(pat@.take(k) =~= pat@);
                    lemma_offset_split(s@, k, 0);
                }
                return Some(bytes);
            },
            Some(p) => {
                assert(p == pat@[k]);
                let have = it.next();
                match have {
                    Some(c) => {
                        assert(c == s@[k]);
                        if c == p {
                            proof {
                                lemma_offset_step(s@, k);
                                assert(s@.skip(k).drop_first() =~= s@.skip(k + 1));
                                assert(pat@.skip(k).drop_first() =~= pat@.skip(k + 1));
                                assert(s@.take(k + 1) =~= s@.take(k).push(s@[k]));
                                assert(pat@.take(k + 1) =~= pat@.take(k).push(pat@[k]));
                            }
                            bytes = bytes + width_of(c);
                            proof {
                                k = k + 1;
                            }
                        } else {
                            proof {
                                if pat@.is_prefix_of(s@) {
                                    assert(s@[k] == pat@[k]);
                                }
                            }
                            return None;
                        }
                    },
                    None => {
                        return None;
                    },
                }
            },
        }
    }
}


/// The first character of a text, if it has one.
pub fn first_char(s: &str) -> (r: Option<char>)
    ensures
        r == if s@.len() > 0 {
            Some(s@[0])
        } else {
            None
        },
{
    broadcast use group_string_axioms;

    let mut it = s.chars();
    it.next()
}

/// Whether a byte offset is the offset of a character of the text, or its end.
pub open spec fn is_boundary(s: Seq<char>, at: int) -> bool {
    exists|k: int| 0 <= k <= s.len() && #[trigger] offset_of(s, k) == at
}

/// The index of the character that begins at a byte offset.
pub open spec fn char_index(s: Seq<char>, at: int) -> int {
    choose|k: int| 0 <= k <= s.len() && #[trigger] offset_of(s, k) == at
}

/// Only one character begins at a given offset.
pub proof fn lemma_char_index(s: Seq<char>, k: int)
    requires
        0 <= k <= s.len(),
    ensures
        is_boundary(s, offset_of(s, k) as int),
        char_index(s, offset_of(s, k) as int) == k,
{
    let at = offset_of(s, k) as int;
    let c = char_index(s, at);
    if c < k {
        lemma_offset_monotone(s, c, k);
    } else if k < c {
        lemma_offset_monotone(s, k, c);
    }
}

/// The text before the character with index `k`, where `at` is that
/// character's byte offset.
pub(crate) fn prefix<'a>(s: &'a str, at: usize, Ghost(k): Ghost<int>) -> (r: &'a str)
    requires
        0 <= k <= s@.len(),
        at == offset_of(s@, k),
    ensures
        r@ == s@.take(k),
{
    broadcast use {encode_utf8_valid_utf8, encode_utf8_decode_utf8};

    proof {
        lemma_offset_is_boundary(s@, k);
        assert(s@ =~= s@.take(k) + s@.skip(k));
        lemma_encode_concat(s@.take(k), s@.skip(k));
    }
    let (r, _) = s.split_at(at);
    proof {
        assert(encode_utf8(r@) =~= encode_utf8(s@.take(k)));
        assert(decode_utf8(encode_utf8(r@)) == r@);
        assert(decode_utf8(encode_utf8(s@.take(k))) == s@.take(k));
    }
    r
}

/// The text between two byte offsets at which characters begin.
pub fn slice<'a>(s: &'a str, from: usize, to: usize) -> (r: &'a str)
    requires
        is_boundary(s@, from as int),
        is_boundary(s@, to as int),
        from <= to,
    ensures
        r@ == s@.subrange(char_index(s@, from as int), char_index(s@, to as int)),
{
    let ghost i = char_index(s@, from as int);
    let ghost j = char_index(s@, to as int);
    proof {
        if j < i {
            lemma_offset_monotone(s@, j, i);
        }
        lemma_offset_split(s@, i, j - i);
    }
    let rest = suffix(s, from, Ghost(i));
    let r = prefix(rest, to - from, Ghost(j - i));
    proof {
        assert(s@.skip(i).take(j - i) =~= s@.subrange(i, j));
    }
    r
}

} // verus!
