//! The tokenizer: from a line of text to its tokens, one at a time.

use crate::chars::{
    ascii_digit, ascii_punctuation, byte_len, is_ascii_digit, is_ascii_punctuation, is_whitespace,
    len_utf8, lemma_byte_len_push, lemma_byte_len_split, whitespace,
};
use vstd::prelude::*;
use vstd::utf8::{
    encode_utf8, encode_utf8_decode_utf8, encode_utf8_first_scalar, encode_utf8_valid_utf8,
    is_char_boundary, pop_first_scalar,
};

verus! {

#[derive(Debug, PartialEq, Eq, Clone, Copy, Structural)]
pub enum TokenType {
    Identifier,
    Number,
    Plus,
    Minus,
    Asterisk,
    ForwardSlash,
    Caret,
    OpeningParen,
    ClosingParen,
}

/// A token: its kind, its text, and the byte offset of its first character
/// in the line.
#[derive(Debug, Clone, Copy, PartialEq, Eq)]
pub struct Token<'a> {
    pub ttype: TokenType,
    pub value: &'a str,
    pub pos: usize,
}

/// What a token is, with its text as a sequence of characters.
pub struct TokenModel {
    pub ttype: TokenType,
    pub value: Seq<char>,
    pub pos: nat,
}

impl<'a> View for Token<'a> {
    type V = TokenModel;

    open spec fn view(&self) -> TokenModel {
        TokenModel { ttype: self.ttype, value: self.value@, pos: self.pos as nat }
    }
}

/// A character that continues a number: a digit or a dot.
pub open spec fn number_char(c: char) -> bool {
    ascii_digit(c) || c == '.'
}

/// A character that continues an identifier: neither white space nor ASCII
/// punctuation.
pub open spec fn identifier_char(c: char) -> bool {
    !(whitespace(c) || ascii_punctuation(c))
}

/// The first index at or after `from` whose character `keep` rejects, or the
/// length of `s` if there is none.
pub open spec fn run_end(s: Seq<char>, from: int, keep: spec_fn(char) -> bool) -> int
    decreases s.len() - from,
{
    if 0 <= from < s.len() && keep(s[from]) {
        run_end(s, from + 1, keep)
    } else {
        from
    }
}

/// The kind of the token that starts with `c`, for a `c` that is not white
/// space.
pub open spec fn kind_of(c: char) -> TokenType {
    if c == '+' {
        TokenType::Plus
    } else if c == '-' {
        TokenType::Minus
    } else if c == '*' {
        TokenType::Asterisk
    } else if c == '/' {
        TokenType::ForwardSlash
    } else if c == '^' {
        TokenType::Caret
    } else if c == '(' {
        TokenType::OpeningParen
    } else if c == ')' {
        TokenType::ClosingParen
    } else if number_char(c) {
        TokenType::Number
    } else {
        TokenType::Identifier
    }
}

/// The index just behind the token that starts at `start`: a number and an
/// identifier take every character that continues them, any other token is
/// one character long.
pub open spec fn token_end(s: Seq<char>, start: int) -> int
    recommends
        0 <= start < s.len(),
{
    match kind_of(s[start]) {
        TokenType::Number => run_end(s, start + 1, |c: char| number_char(c)),
        TokenType::Identifier => run_end(s, start + 1, |c: char| identifier_char(c)),
        _ => start + 1,
    }
}

/// The state of a tokenizer: the text not yet read, and the byte offset of
/// its first character in the line.
pub struct LexerModel {
    pub rest: Seq<char>,
    pub pos: nat,
}

impl LexerModel {
    /// Where the next token starts: behind the leading white space.
    pub open spec fn token_start(self) -> int {
        run_end(self.rest, 0, |c: char| whitespace(c))
    }

    /// The index just behind the next token, or the length of the text if
    /// only white space is left.
    pub open spec fn token_stop(self) -> int {
        if self.token_start() < self.rest.len() {
            token_end(self.rest, self.token_start())
        } else {
            self.token_start()
        }
    }

    /// The next token, if the text holds more than white space.
    pub open spec fn next_token(self) -> Option<TokenModel> {
        let start = self.token_start();
        if start < self.rest.len() {
            Some(
                TokenModel {
                    ttype: kind_of(self.rest[start]),
                    value: self.rest.subrange(start, self.token_stop()),
                    pos: self.pos + byte_len(self.rest.subrange(0, start)),
                },
            )
        } else {
            None
        }
    }

    /// The state behind the next token, or at the end of the text if only
    /// white space is left.
    pub open spec fn advance(self) -> LexerModel {
        let stop = self.token_stop();
        LexerModel {
            rest: self.rest.subrange(stop, self.rest.len() as int),
            pos: self.pos + byte_len(self.rest.subrange(0, stop)),
        }
    }

    /// Every token that is left, in order.
    pub open spec fn tokens(self) -> Seq<TokenModel>
        decreases self.rest.len(),
    {
        match self.next_token() {
            None => Seq::empty(),
            Some(token) => {
                proof {
                    lemma_run_end_bounds(self.rest, 0, |c: char| whitespace(c));
                    lemma_token_end_bounds(self.rest, self.token_start());
                }
                seq![token] + self.advance().tokens()
            },
        }
    }
}

/// A run ends between its start and the end of the text, every character in
/// it is kept, and the character behind it is not.
pub proof fn lemma_run_end_bounds(s: Seq<char>, from: int, keep: spec_fn(char) -> bool)
    requires
        0 <= from <= s.len(),
    ensures
        from <= run_end(s, from, keep) <= s.len(),
        forall|i: int| from <= i < run_end(s, from, keep) ==> keep(#[trigger] s[i]),
        run_end(s, from, keep) < s.len() ==> !keep(s[run_end(s, from, keep)]),
    decreases s.len() - from,
{
    if from < s.len() && keep(s[from]) {
        lemma_run_end_bounds(s, from + 1, keep);
    }
}

/// A token holds at least one character and ends within the text.
pub proof fn lemma_token_end_bounds(s: Seq<char>, start: int)
    requires
        0 <= start < s.len(),
    ensures
        start < token_end(s, start) <= s.len(),
{
    lemma_run_end_bounds(s, start + 1, |c: char| number_char(c));
    lemma_run_end_bounds(s, start + 1, |c: char| identifier_char(c));
}

/// The only index that ends a run: everything from `from` up to it is kept,
/// and it is the end of the text or rejected.
pub proof fn lemma_run_end_unique(s: Seq<char>, from: int, keep: spec_fn(char) -> bool, end: int)
    requires
        0 <= from <= end <= s.len(),
        forall|i: int| from <= i < end ==> keep(#[trigger] s[i]),
        end < s.len() ==> !keep(s[end]),
    ensures
        run_end(s, from, keep) == end,
    decreases end - from,
{
    if from < end {
        lemma_run_end_unique(s, from + 1, keep, end);
    }
}

/// A run within the tail of a text ends where the run within the whole text
/// ends.
pub proof fn lemma_run_end_shift(s: Seq<char>, from: int, keep: spec_fn(char) -> bool)
    requires
        0 <= from <= s.len(),
    ensures
        run_end(s, from, keep) == from + run_end(s.subrange(from, s.len() as int), 0, keep),
{
    let tail = s.subrange(from, s.len() as int);
    lemma_run_end_bounds(tail, 0, keep);
    let end = from + run_end(tail, 0, keep);
    assert forall|i: int| from <= i < end implies keep(#[trigger] s[i]) by {
        assert(s[i] == tail[i - from]);
    }
    if end < s.len() {
        assert(s[end] == tail[end - from]);
    }
    lemma_run_end_unique(s, from, keep, end);
}

/// The bytes of the first `at` characters end on a character boundary, and
/// the encoding of the text is cut there into the encodings of its two parts.
pub proof fn lemma_prefix_boundary(s: Seq<char>, at: int)
    requires
        0 <= at <= s.len(),
    ensures
        is_char_boundary(encode_utf8(s), byte_len(s.subrange(0, at)) as int),
        encode_utf8(s).subrange(0, byte_len(s.subrange(0, at)) as int) == encode_utf8(
            s.subrange(0, at),
        ),
        encode_utf8(s).subrange(byte_len(s.subrange(0, at)) as int, byte_len(s) as int)
            == encode_utf8(s.subrange(at, s.len() as int)),
    decreases at,
{
    let bytes = encode_utf8(s);
    let head = s.subrange(0, at);
    lemma_byte_len_split(s, at);
    encode_utf8_valid_utf8(s);
    assert(bytes.subrange(0, byte_len(head) as int) == encode_utf8(head));
    assert(bytes.subrange(byte_len(head) as int, byte_len(s) as int) == encode_utf8(
        s.subrange(at, s.len() as int),
    ));
    if at > 0 {
        let rest = s.drop_first();
        encode_utf8_first_scalar(s);
        assert(pop_first_scalar(bytes) == encode_utf8(rest));
        lemma_prefix_boundary(rest, at - 1);
        assert(rest.subrange(0, at - 1) == head.drop_first());
        assert(head[0] == s[0]);
    }
}

/// Cuts a text behind its first `at` characters, which take `bytes` bytes.
fn split_chars<'a>(s: &'a str, bytes: usize, Ghost(at): Ghost<int>) -> (r: (&'a str, &'a str))
    requires
        0 <= at <= s@.len(),
        bytes == byte_len(s@.subrange(0, at)),
    ensures
        r.0@ == s@.subrange(0, at),
        r.1@ == s@.subrange(at, s@.len() as int),
{
    proof {
        lemma_prefix_boundary(s@, at);
    }
    let r = s.split_at(bytes);
    proof {
        encode_utf8_decode_utf8(r.0@);
        encode_utf8_decode_utf8(r.1@);
        encode_utf8_decode_utf8(s@.subrange(0, at));
        encode_utf8_decode_utf8(s@.subrange(at, s@.len() as int));
    }
    r
}

fn separates(c: &char) -> (r: bool)
    ensures
        r == whitespace(*c),
{
    is_whitespace(*c)
}

fn continues_number(c: &char) -> (r: bool)
    ensures
        r == number_char(*c),
{
    is_ascii_digit(*c) || *c == '.'
}

fn continues_identifier(c: &char) -> (r: bool)
    ensures
        r == identifier_char(*c),
{
    !(is_whitespace(*c) || is_ascii_punctuation(*c))
}

/// The number of bytes that the leading characters of `text` take which
/// `func` accepts.
fn count_char_bytes_while<F>(text: &str, func: F, Ghost(keep): Ghost<spec_fn(char) -> bool>) -> (bytes:
    usize) where F: Fn(&char) -> bool
    requires
        forall|c: char| call_requires(func, (&c,)),
        forall|c: char, b: bool| call_ensures(func, (&c,), b) ==> b == keep(c),
    ensures
        bytes == byte_len(text@.subrange(0, run_end(text@, 0, keep))),
{
    // The bytes of a text are counted in `usize`: so are those of each part of it.
    let _ = text.as_bytes().len();
    let mut rest: &str = text;
    let mut bytes: usize = 0;
    let ghost mut i: int = 0;
    loop
        invariant
            0 <= i <= text@.len(),
            rest@ == text@.subrange(i, text@.len() as int),
            bytes == byte_len(text@.subrange(0, i)),
            forall|j: int| 0 <= j < i ==> keep(#[trigger] text@[j]),
            forall|c: char| call_requires(func, (&c,)),
            forall|c: char, b: bool| call_ensures(func, (&c,), b) ==> b == keep(c),
            byte_len(text@) <= usize::MAX,
        decreases text@.len() - i,
    {
        if rest.is_empty() {
            proof {
                lemma_run_end_unique(text@, 0, keep, i);
            }
            return bytes;
        }
        let c = rest.get_char(0);
        assert(c == text@[i]);
        if !func(&c) {
            proof {
                lemma_run_end_unique(text@, 0, keep, i);
            }
            return bytes;
        }
        let width = len_utf8(c);
        proof {
            lemma_byte_len_push(Seq::empty(), c);
            assert(Seq::<char>::empty().push(c) == rest@.subrange(0, 1));
            lemma_byte_len_push(text@.subrange(0, i), c);
            assert(text@.subrange(0, i).push(c) == text@.subrange(0, i + 1));
            lemma_byte_len_split(text@, i + 1);
        }
        let (_, tail) = split_chars(rest, width, Ghost(1));
        bytes += width;
        rest = tail;
        proof {
            i = i + 1;
            assert(rest@ == text@.subrange(i, text@.len() as int));
        }
    }
}

pub struct Lexer<'a> {
    source: &'a str,
    pos: usize,
}

impl<'a> View for Lexer<'a> {
    type V = LexerModel;

    closed spec fn view(&self) -> LexerModel {
        LexerModel { rest: self.source@, pos: self.pos as nat }
    }
}

impl<'a> Lexer<'a> {
    /// Byte offsets stay within `usize` up to the end of the line.
    #[verifier::type_invariant]
    pub closed spec fn in_bounds(self) -> bool {
        self.pos + byte_len(self.source@) <= usize::MAX
    }

    /// A tokenizer at the start of `source`.
    pub fn new(source: &'a str) -> (r: Self)
        ensures
            r@ == (LexerModel { rest: source@, pos: 0 }),
    {
        // The bytes of a text are counted in `usize`: every offset into it fits.
        let _ = source.as_bytes().len();
        Self { source, pos: 0 }
    }

    /// Reads the next token: skips white space, then takes one of the seven
    /// single characters, a number, or an identifier. Returns `None`, and
    /// stays at the end of the text, when only white space is left.
    pub fn next(&mut self) -> (r: Option<Token<'a>>)
        ensures
            r is Some <==> old(self)@.next_token() is Some,
            r is Some ==> r->0@ == old(self)@.next_token()->0,
            final(self)@ == old(self)@.advance(),
    {
        proof {
            use_type_invariant(&*self);
        }
        let source: &'a str = self.source;
        let offset: usize = self.pos;
        let ghost text = source@;
        let ghost model = self@;
        let ghost start = model.token_start();
        let ghost stop = model.token_stop();
        proof {
            lemma_run_end_bounds(text, 0, |c: char| whitespace(c));
            lemma_byte_len_split(text, start);
        }
        let skipped = count_char_bytes_while(
            source,
            separates,
            Ghost(|c: char| whitespace(c)),
        );
        let (_, tail) = split_chars(source, skipped, Ghost(start));
        if tail.is_empty() {
            *self = Lexer { source: tail, pos: offset + skipped };
            return None;
        }
        let first = tail.get_char(0);
        assert(first == text[start]);
        let width = len_utf8(first);
        proof {
            lemma_token_end_bounds(text, start);
            lemma_byte_len_split(text, stop);
            lemma_byte_len_split(text.subrange(0, stop), start);
            assert(text.subrange(0, stop).subrange(0, start) == text.subrange(0, start));
            assert(text.subrange(0, stop).subrange(start, stop) == text.subrange(start, stop));
            assert(tail@.subrange(0, stop - start) == text.subrange(start, stop));
            lemma_byte_len_push(Seq::empty(), first);
            assert(Seq::<char>::empty().push(first) == tail@.subrange(0, 1));
            lemma_byte_len_split(tail@.subrange(0, stop - start), 1);
            assert(tail@.subrange(0, stop - start).subrange(0, 1) == tail@.subrange(0, 1));
            assert(tail@.subrange(0, stop - start).subrange(1, stop - start) == tail@.subrange(
                1,
                stop - start,
            ));
        }
        let (ttype, len): (TokenType, usize) = if first == '+' {
            (TokenType::Plus, 1)
        } else if first == '-' {
            (TokenType::Minus, 1)
        } else if first == '*' {
            (TokenType::Asterisk, 1)
        } else if first == '/' {
            (TokenType::ForwardSlash, 1)
        } else if first == '^' {
            (TokenType::Caret, 1)
        } else if first == '(' {
            (TokenType::OpeningParen, 1)
        } else if first == ')' {
            (TokenType::ClosingParen, 1)
        } else {
            let (_, follow) = split_chars(tail, width, Ghost(1));
            proof {
                lemma_run_end_shift(text, start + 1, |c: char| number_char(c));
                lemma_run_end_shift(text, start + 1, |c: char| identifier_char(c));
                assert(follow@ == text.subrange(start + 1, text.len() as int));
                assert(follow@.subrange(0, stop - start - 1) == tail@.subrange(1, stop - start));
            }
            if is_ascii_digit(first) || first == '.' {
                let len = count_char_bytes_while(
                    follow,
                    continues_number,
                    Ghost(|c: char| number_char(c)),
                );
                (TokenType::Number, width + len)
            } else {
                let len = count_char_bytes_while(
                    follow,
                    continues_identifier,
                    Ghost(|c: char| identifier_char(c)),
                );
                (TokenType::Identifier, width + len)
            }
        };
        assert(len == byte_len(text.subrange(start, stop)));
        let (value, rest) = split_chars(tail, len, Ghost(stop - start));
        assert(rest@ == text.subrange(stop, text.len() as int));
        assert(byte_len(text.subrange(0, stop)) == skipped + len);
        let pos = offset + skipped;
        *self = Lexer { source: rest, pos: pos + len };
        Some(Token { ttype, value, pos })
    }
}

} // verus!
