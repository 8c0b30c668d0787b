use vstd::prelude::*;
use crate::object::{names, text_eq};

verus! {

/// Whether `c` is white space: a code point that Unicode marks as
/// White_Space.
pub open spec fn is_space(c: char) -> bool {
    let n = c as u32;
    (0x9 <= n <= 0xd) || n == 0x20 || n == 0x85 || n == 0xa0 || n == 0x1680 || (0x2000 <= n
        <= 0x200a) || n == 0x2028 || n == 0x2029 || n == 0x202f || n == 0x205f || n == 0x3000
}

/// Whether `c` is a parenthesis.
pub open spec fn is_paren(c: char) -> bool {
    c == '(' || c == ')'
}

/// `done`, with the word `s[from..to]` added where it is not empty.
pub open spec fn with_word(s: Seq<char>, from: nat, to: nat, done: Seq<Seq<char>>) -> Seq<Seq<char>> {
    if from < to {
        done.push(s.subrange(from as int, to as int))
    } else {
        done
    }
}

/// The tokens found from index `at` on, added to `done`, where a word has
/// been running since index `from`. White space ends a word; a parenthesis
/// ends a word and is a token by itself.
pub open spec fn scan(s: Seq<char>, at: nat, from: nat, done: Seq<Seq<char>>) -> Seq<Seq<char>>
    decreases s.len() - at,
{
    if at >= s.len() {
        with_word(s, from, at, done)
    } else if is_space(s[at as int]) {
        scan(s, at + 1, at + 1, with_word(s, from, at, done))
    } else if is_paren(s[at as int]) {
        scan(
            s,
            at + 1,
            at + 1,
            with_word(s, from, at, done).push(s.subrange(at as int, at as int + 1)),
        )
    } else {
        scan(s, at + 1, from, done)
    }
}

/// The tokens of a source text: its parentheses, each by itself, and the
/// longest runs of other characters that hold no white space, in the order
/// in which they stand.
pub open spec fn tokens_of(s: Seq<char>) -> Seq<Seq<char>> {
    scan(s, 0, 0, Seq::empty())
}

/// Whether `c` is white space.
pub fn is_space_char(c: char) -> (r: bool)
    ensures
        r == is_space(c),
{
    let n: u32 = c as u32;
    (0x9 <= n && n <= 0xd) || n == 0x20 || n == 0x85 || n == 0xa0 || n == 0x1680 || (0x2000 <= n
        && n <= 0x200a) || n == 0x2028 || n == 0x2029 || n == 0x202f || n == 0x205f || n == 0x3000
}

/// Adds the word `source[from..to]` to `out` where it is not empty.
fn push_word(out: &mut Vec<String>, source: &str, from: usize, to: usize)
    requires
        from <= to <= source@.len(),
    ensures
        names(final(out)@) == with_word(source@, from as nat, to as nat, names(old(out)@)),
{
    if from < to {
        let word = source.substring_char(from, to).to_owned();
        out.push(word);
        proof {
            assert(names(out@) =~= names(old(out)@).push(word@));
        }
    }
}

/// Splits a source text into tokens.
pub fn tokenize(source: &str) -> (r: Vec<String>)
    ensures
        names(r@) == tokens_of(source@),
{
    let n: usize = source.unicode_len();
    let mut out: Vec<String> = Vec::new();
    let mut from: usize = 0;
    let mut i: usize = 0;
    proof {
        assert(names(out@) =~= Seq::<Seq<char>>::empty());
    }
    while i < n
        invariant
            from <= i <= n,
            n == source@.len(),
            tokens_of(source@) == scan(source@, i as nat, from as nat, names(out@)),
        decreases n - i,
    {
        let c = source.get_char(i);
        if is_space_char(c) {
            push_word(&mut out, source, from, i);
            from = i + 1;
        } else if c == '(' || c == ')' {
            push_word(&mut out, source, from, i);
            push_word(&mut out, source, i, i + 1);
            from = i + 1;
        }
        i += 1;
    }
    push_word(&mut out, source, from, n);
    out
}

/// Whether `c` is neither white space nor a parenthesis.
pub open spec fn is_plain(c: char) -> bool {
    !is_space(c) && !is_paren(c)
}

/// Whether `t` has the shape of a token: one parenthesis, or one or more
/// characters that are neither white space nor parentheses.
pub open spec fn is_token(t: Seq<char>) -> bool {
    t.len() > 0 && ((t.len() == 1 && is_paren(t[0])) || forall|i: int|
        0 <= i < t.len() ==> is_plain(#[trigger] t[i]))
}

/// The characters of a sequence of tokens, one token after the other.
pub open spec fn joined(tokens: Seq<Seq<char>>) -> Seq<char>
    decreases tokens.len(),
{
    if tokens.len() == 0 {
        Seq::empty()
    } else {
        joined(tokens.drop_last()) + tokens.last()
    }
}

/// A text without its white space.
pub open spec fn unspaced(s: Seq<char>) -> Seq<char>
    decreases s.len(),
{
    if s.len() == 0 {
        Seq::empty()
    } else if is_space(s.last()) {
        unspaced(s.drop_last())
    } else {
        unspaced(s.drop_last()).push(s.last())
    }
}

proof fn lemma_scan(s: Seq<char>, at: nat, from: nat, done: Seq<Seq<char>>)
    requires
        from <= at <= s.len(),
        forall|j: int| from <= j < at ==> is_plain(#[trigger] s[j]),
        forall|i: int| 0 <= i < done.len() ==> is_token(#[trigger] done[i]),
        joined(done) + s.subrange(from as int, at as int) == unspaced(s.take(at as int)),
    ensures
        forall|i: int|
            0 <= i < scan(s, at, from, done).len() ==> is_token(#[trigger] scan(s, at, from, done)[i]),
        joined(scan(s, at, from, done)) == unspaced(s),
    decreases s.len() - at,
{
    let word = s.subrange(from as int, at as int);
    let flushed = with_word(s, from, at, done);
    if from < at {
        assert(flushed.drop_last() =~= done);
    }
    assert(joined(flushed) =~= joined(done) + word);
    assert forall|i: int| 0 <= i < flushed.len() implies is_token(#[trigger] flushed[i]) by {
        if i < done.len() {
            assert(is_token(done[i]));
        } else {
            assert(flushed[i] == word);
            assert forall|j: int| 0 <= j < word.len() implies is_plain(#[trigger] word[j]) by {
                assert(is_plain(s[from + j]));
            }
        }
    }
    if at >= s.len() {
        assert(s.take(at as int) =~= s);
    } else {
        let c = s[at as int];
        let next = s.take(at as int + 1);
        assert(next.drop_last() =~= s.take(at as int));
        assert(next.last() == c);
        let none = s.subrange(at as int + 1, at as int + 1);
        assert(none =~= Seq::<char>::empty());
        if is_space(c) {
            assert(joined(flushed) + none =~= unspaced(next));
            lemma_scan(s, at + 1, at + 1, flushed);
        } else if is_paren(c) {
            let one = s.subrange(at as int, at as int + 1);
            let more = flushed.push(one);
            assert(more.drop_last() =~= flushed);
            assert(one =~= seq![c]);
            assert(joined(more) + none =~= unspaced(next));
            assert forall|i: int| 0 <= i < more.len() implies is_token(#[trigger] more[i]) by {
                if i < flushed.len() {
                    assert(is_token(flushed[i]));
                }
            }
            lemma_scan(s, at + 1, at + 1, more);
        } else {
            assert(s.subrange(from as int, at as int + 1) =~= word.push(c));
            assert(joined(done) + s.subrange(from as int, at as int + 1) =~= unspaced(next));
            lemma_scan(s, at + 1, from, done);
        }
    }
}

/// Every token is one parenthesis or a run of characters that holds neither
/// white space nor a parenthesis, and the tokens, put one after the other,
/// are the text without its white space.
pub proof fn law_tokens_cover_the_text(s: Seq<char>)
    ensures
        forall|i: int| 0 <= i < tokens_of(s).len() ==> is_token(#[trigger] tokens_of(s)[i]),
        joined(tokens_of(s)) == unspaced(s),
{
    assert(s.subrange(0, 0) =~= Seq::<char>::empty());
    assert(joined(Seq::<Seq<char>>::empty()) + s.subrange(0, 0) =~= unspaced(s.take(0)));
    lemma_scan(s, 0, 0, Seq::empty());
}

/// What kind of token a piece of source text is.
#[derive(Debug, PartialEq)]
pub enum TokenKind {
    /// An opening parenthesis.
    LParen,
    /// A closing parenthesis.
    RParen,
    /// A number, held as the bit pattern of an IEEE 754 binary64 value.
    Float(u64),
    /// A symbol, by name.
    Symbol(String),
}

/// The mathematical value of a [`TokenKind`].
pub ghost enum Lexeme {
    LParen,
    RParen,
    Number(u64),
    Symbol(Seq<char>),
}

impl View for TokenKind {
    type V = Lexeme;

    open spec fn view(&self) -> Lexeme {
        match self {
            TokenKind::LParen => Lexeme::LParen,
            TokenKind::RParen => Lexeme::RParen,
            TokenKind::Float(bits) => Lexeme::Number(*bits),
            TokenKind::Symbol(s) => Lexeme::Symbol(s@),
        }
    }
}

/// The values of a sequence of tokens.
pub open spec fn lexemes(v: Seq<TokenKind>) -> Seq<Lexeme> {
    Seq::new(v.len(), |i: int| v[i]@)
}

/// The kind of a token, given the number that its text was read as, if it
/// reads as one: a parenthesis first, then a number, else a symbol.
pub open spec fn token_kind(token: Seq<char>, number: Option<u64>) -> Lexeme {
    if token == "("@ {
        Lexeme::LParen
    } else if token == ")"@ {
        Lexeme::RParen
    } else {
        match number {
            Some(bits) => Lexeme::Number(bits),
            None => Lexeme::Symbol(token),
        }
    }
}

/// The number read for the token at index `i`, where one was handed in.
pub open spec fn number_at(numbers: Seq<Option<u64>>, i: int) -> Option<u64> {
    if 0 <= i < numbers.len() {
        numbers[i]
    } else {
        None
    }
}

/// Classifies one token. `number` is the binary64 pattern that the token's
/// text denotes, where it denotes a number.
pub fn lex_single_token(token: &str, number: Option<u64>) -> (r: TokenKind)
    ensures
        r@ == token_kind(token@, number),
{
    if text_eq(token, "(") {
        TokenKind::LParen
    } else if text_eq(token, ")") {
        TokenKind::RParen
    } else {
        match number {
            Some(bits) => TokenKind::Float(bits),
            None => TokenKind::Symbol(token.to_owned()),
        }
    }
}

/// Classifies each token. `numbers` holds, index by index, the binary64
/// pattern that a token's text denotes; a token without an entry there is
/// taken not to denote a number.
pub fn lex(tokens: &[String], numbers: &[Option<u64>]) -> (r: Vec<TokenKind>)
    ensures
        r@.len() == tokens@.len(),
        forall|i: int|
            0 <= i < tokens@.len() ==> (#[trigger] r@[i])@ == token_kind(
                tokens@[i]@,
                number_at(numbers@, i),
            ),
{
    let mut out: Vec<TokenKind> = Vec::new();
    let mut i: usize = 0;
    while i < tokens.len()
        invariant
            i <= tokens.len(),
            out@.len() == i,
            forall|j: int|
                0 <= j < i ==> (#[trigger] out@[j])@ == token_kind(
                    tokens@[j]@,
                    number_at(numbers@, j),
                ),
        decreases tokens.len() - i,
    {
        let number: Option<u64> = if i < numbers.len() {
            numbers[i]
        } else {
            None
        };
        out.push(lex_single_token(tokens[i].as_str(), number));
        i += 1;
    }
    out
}

} // verus!
