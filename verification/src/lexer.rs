use vstd::prelude::*;
use vstd::pervasive::unreached;
use crate::token::Token;
use crate::text::{utf8_lossy, ascii_chars, is_ascii_bytes, lossy_string};

verus! {

// ---------------------------------------------------------------------------
// Byte classes
// ---------------------------------------------------------------------------

/// ASCII whitespace as `u8::is_ascii_whitespace` defines it: tab, line feed,
/// form feed, carriage return and space.
pub open spec fn is_ws(b: u8) -> bool {
    b == 9 || b == 10 || b == 12 || b == 13 || b == 32
}

pub open spec fn is_alpha(b: u8) -> bool {
    (65 <= b && b <= 90) || (97 <= b && b <= 122)
}

pub open spec fn is_digit(b: u8) -> bool {
    48 <= b && b <= 57
}

/// A byte that opens a number literal.
pub open spec fn starts_number(b: u8) -> bool {
    is_digit(b) || b == 46 || b == 43 || b == 45
}

/// A byte that continues a number literal.
pub open spec fn in_number(b: u8) -> bool {
    is_digit(b) || b == 46
}

/// A byte that opens some token.
pub open spec fn starts_token(b: u8) -> bool {
    b == 59 || b == 40 || b == 41 || b == 123 || b == 125 || b == 58 || b == 34 || is_alpha(b)
        || starts_number(b)
}

fn is_ws_byte(b: u8) -> (r: bool)
    ensures
        r == is_ws(b),
{
    b == 9 || b == 10 || b == 12 || b == 13 || b == 32
}

fn is_alpha_byte(b: u8) -> (r: bool)
    ensures
        r == is_alpha(b),
{
    (65 <= b && b <= 90) || (97 <= b && b <= 122)
}

fn is_digit_byte(b: u8) -> (r: bool)
    ensures
        r == is_digit(b),
{
    48 <= b && b <= 57
}

fn starts_token_byte(b: u8) -> (r: bool)
    ensures
        r == starts_token(b),
{
    b == 59u8 || b == 40u8 || b == 41u8 || b == 123u8 || b == 125u8 || b == 58u8 || b == 34u8
        || is_alpha_byte(b) || is_digit_byte(b) || b == 46u8 || b == 43u8 || b == 45u8
}

// ---------------------------------------------------------------------------
// The lexical structure of the input, as positions in it
// ---------------------------------------------------------------------------

/// The position just past the line that starts at `i`: past its line feed,
/// or the end of the data.
pub open spec fn line_end(d: Seq<u8>, i: nat) -> nat
    decreases d.len() - i,
{
    if i >= d.len() {
        i
    } else if d[i as int] == 10 {
        i + 1
    } else {
        line_end(d, i + 1)
    }
}

pub proof fn lemma_line_end_bounds(d: Seq<u8>, i: nat)
    ensures
        i <= line_end(d, i),
        i <= d.len() ==> line_end(d, i) <= d.len(),
    decreases d.len() - i,
{
    if i < d.len() && d[i as int] != 10 {
        lemma_line_end_bounds(d, i + 1);
    }
}

/// The position where the lexer reads next after skipping whitespace and
/// `//` comments from `i`.
///
/// A `/` as the last byte is stepped back over twice, so the lexer then reads
/// the byte before it.
pub open spec fn trivia_end(d: Seq<u8>, i: nat) -> nat
    decreases d.len() - i,
{
    if i >= d.len() {
        i
    } else if is_ws(d[i as int]) {
        trivia_end(d, i + 1)
    } else if d[i as int] == 47 {
        if i + 1 < d.len() {
            if d[i + 1int] == 47 {
                proof {
                    lemma_line_end_bounds(d, i + 2);
                }
                trivia_end(d, line_end(d, i + 2))
            } else {
                i
            }
        } else if i > 0 {
            (i - 1) as nat
        } else {
            0
        }
    } else {
        i
    }
}

/// The end of the run of letters from `i`.
pub open spec fn alpha_end(d: Seq<u8>, i: nat) -> nat
    decreases d.len() - i,
{
    if i < d.len() && is_alpha(d[i as int]) {
        alpha_end(d, i + 1)
    } else {
        i
    }
}

/// The end of the run of digits and dots from `i`.
pub open spec fn number_end(d: Seq<u8>, i: nat) -> nat
    decreases d.len() - i,
{
    if i < d.len() && in_number(d[i as int]) {
        number_end(d, i + 1)
    } else {
        i
    }
}

/// The index of the first `"` at or after `i`, or a position at the end.
pub open spec fn quote_index(d: Seq<u8>, i: nat) -> nat
    decreases d.len() - i,
{
    if i < d.len() && d[i as int] != 34 {
        quote_index(d, i + 1)
    } else {
        i
    }
}

/// The keyword that a word spells, if any.
pub open spec fn keyword(w: Seq<u8>) -> Option<Token> {
    if w == seq![102u8, 110u8] {
        Some(Token::FunctionDef)
    } else if w == seq![115u8, 116u8, 114u8] {
        Some(Token::StrType)
    } else if w == seq![102u8, 108u8, 111u8, 97u8, 116u8] {
        Some(Token::FloatType)
    } else if w == seq![105u8, 110u8, 116u8] {
        Some(Token::IntType)
    } else if w == seq![98u8, 111u8, 111u8, 108u8] {
        Some(Token::BoolType)
    } else if w == seq![116u8, 114u8, 117u8, 101u8] {
        Some(Token::Bool(true))
    } else if w == seq![102u8, 97u8, 108u8, 115u8, 101u8] {
        Some(Token::Bool(false))
    } else {
        None
    }
}

/// The value of a run of decimal digits.
pub open spec fn digits_value(s: Seq<u8>) -> int
    decreases s.len(),
{
    if s.len() == 0 {
        0
    } else {
        digits_value(s.drop_last()) * 10 + (s.last() - 48)
    }
}

/// Whether the literal starts with a minus sign, and what follows its sign.
pub open spec fn split_sign(num: Seq<u8>) -> (bool, Seq<u8>) {
    if num.len() > 0 && num[0] == 45 {
        (true, num.drop_first())
    } else if num.len() > 0 && num[0] == 43 {
        (false, num.drop_first())
    } else {
        (false, num)
    }
}

/// The `i64` that a literal of an optional sign and digits denotes, when it
/// has a digit and the value is in range.
pub open spec fn int_literal(num: Seq<u8>) -> Option<i64> {
    let (neg, ds) = split_sign(num);
    let v = if neg {
        -digits_value(ds)
    } else {
        digits_value(ds)
    };
    if ds.len() > 0 && i64::MIN <= v && v <= i64::MAX {
        Some(v as i64)
    } else {
        None
    }
}

/// How many times the byte `b` occurs in `s`.
pub open spec fn count_of(s: Seq<u8>, b: u8) -> nat
    decreases s.len(),
{
    if s.len() == 0 {
        0
    } else {
        count_of(s.drop_last(), b) + if s.last() == b {
            1nat
        } else {
            0nat
        }
    }
}

/// Whether a literal of an optional sign, digits and dots is a decimal
/// floating-point literal: after the sign, exactly one dot and at least one
/// digit.
pub open spec fn float_literal_ok(num: Seq<u8>) -> bool {
    let body = split_sign(num).1;
    count_of(body, 46) == 1 && body.len() >= 2
}

/// What the lexer makes of one lexical unit.
pub enum Lexeme {
    /// A token without text.
    Plain(Token),
    /// An identifier with the given name.
    Word(Seq<char>),
    /// A string literal with the given contents.
    Text(Seq<char>),
    /// A float literal written as the given text.
    Decimal(Seq<char>),
}

/// The text of a string literal with the given bytes: the bytes as
/// characters when they are ASCII, their decoding when they are valid UTF-8,
/// and otherwise their lossy decoding, where each invalid sequence becomes
/// U+FFFD.
pub open spec fn string_text(b: Seq<u8>) -> Seq<char> {
    if is_ascii_bytes(b) {
        ascii_chars(b)
    } else if vstd::utf8::valid_utf8(b) {
        vstd::utf8::decode_utf8(b)
    } else {
        utf8_lossy(b)
    }
}

pub open spec fn word_lexeme(w: Seq<u8>) -> Lexeme {
    match keyword(w) {
        Some(k) => Lexeme::Plain(k),
        None => Lexeme::Word(ascii_chars(w)),
    }
}

pub open spec fn number_lexeme(num: Seq<u8>) -> Option<Lexeme> {
    if count_of(num, 46) > 0 {
        if float_literal_ok(num) {
            Some(Lexeme::Decimal(ascii_chars(num)))
        } else {
            None
        }
    } else {
        match int_literal(num) {
            Some(v) => Some(Lexeme::Plain(Token::Int(v))),
            None => None,
        }
    }
}

/// Whether a token is what a lexeme describes.
pub open spec fn denotes(t: Option<Token>, l: Option<Lexeme>) -> bool {
    match (t, l) {
        (None, None) => true,
        (Some(t), Some(Lexeme::Plain(p))) => t == p,
        (Some(Token::Ident(s)), Some(Lexeme::Word(w))) => s@ == w,
        (Some(Token::String(s)), Some(Lexeme::Text(w))) => s@ == w,
        (Some(Token::Float(s)), Some(Lexeme::Decimal(w))) => s@ == w,
        _ => false,
    }
}

/// Whether reading from `p` meets a byte that opens no token, on which the
/// lexer stops with a panic.
pub open spec fn lex_panics(d: Seq<u8>, p: nat) -> bool {
    let q = trivia_end(d, p);
    q < d.len() && !starts_token(d[q as int])
}

/// One call of `read` from position `p`: what it returns, and where it leaves
/// the lexer.
pub open spec fn lex_step(d: Seq<u8>, p: nat) -> (Option<Lexeme>, nat) {
    let q = trivia_end(d, p);
    if q >= d.len() {
        (None, q)
    } else {
        let b = d[q as int];
        if b == 59 {
            (Some(Lexeme::Plain(Token::Semicolon)), q + 1)
        } else if b == 40 {
            (Some(Lexeme::Plain(Token::LParen)), q + 1)
        } else if b == 41 {
            (Some(Lexeme::Plain(Token::RParen)), q + 1)
        } else if b == 123 {
            (Some(Lexeme::Plain(Token::LBrace)), q + 1)
        } else if b == 125 {
            (Some(Lexeme::Plain(Token::RBrace)), q + 1)
        } else if b == 58 {
            if q + 1 < d.len() && d[q + 1int] == 61 {
                (Some(Lexeme::Plain(Token::Assign)), q + 2)
            } else if q + 1 < d.len() {
                (Some(Lexeme::Plain(Token::Colon)), q + 1)
            } else {
                (Some(Lexeme::Plain(Token::Colon)), q)
            }
        } else if b == 34 {
            let e = quote_index(d, q + 1);
            if e < d.len() {
                (Some(Lexeme::Text(string_text(d.subrange(q + 1int, e as int)))), e + 1)
            } else {
                (None, d.len())
            }
        } else if is_alpha(b) {
            let e = alpha_end(d, q + 1);
            (Some(word_lexeme(d.subrange(q as int, e as int))), e)
        } else if starts_number(b) {
            let e = number_end(d, q + 1);
            (number_lexeme(d.subrange(q as int, e as int)), e)
        } else {
            // the byte opens no token, and `read` panics (see `lex_panics`)
            (None, q + 1)
        }
    }
}

// ---------------------------------------------------------------------------
// Lemmas on the runs
// ---------------------------------------------------------------------------

pub proof fn lemma_alpha_run(d: Seq<u8>, i: nat)
    ensures
        i <= alpha_end(d, i),
        i <= d.len() ==> alpha_end(d, i) <= d.len(),
        forall|k: int| i <= k < alpha_end(d, i) ==> is_alpha(#[trigger] d[k]),
    decreases d.len() - i,
{
    if i < d.len() && is_alpha(d[i as int]) {
        lemma_alpha_run(d, i + 1);
    }
}

pub proof fn lemma_number_run(d: Seq<u8>, i: nat)
    ensures
        i <= number_end(d, i),
        i <= d.len() ==> number_end(d, i) <= d.len(),
        forall|k: int| i <= k < number_end(d, i) ==> in_number(#[trigger] d[k]),
    decreases d.len() - i,
{
    if i < d.len() && in_number(d[i as int]) {
        lemma_number_run(d, i + 1);
    }
}

pub proof fn lemma_quote_index(d: Seq<u8>, i: nat)
    ensures
        i <= quote_index(d, i),
        i <= d.len() ==> quote_index(d, i) <= d.len(),
        quote_index(d, i) < d.len() ==> d[quote_index(d, i) as int] == 34,
    decreases d.len() - i,
{
    if i < d.len() && d[i as int] != 34 {
        lemma_quote_index(d, i + 1);
    }
}

proof fn lemma_digits_value_nonneg(s: Seq<u8>)
    requires
        forall|k: int| 0 <= k < s.len() ==> is_digit(#[trigger] s[k]),
    ensures
        digits_value(s) >= 0,
    decreases s.len(),
{
    if s.len() > 0 {
        lemma_digits_value_nonneg(s.drop_last());
    }
}

/// A prefix of a run of digits has no larger value than the run.
proof fn lemma_digits_value_prefix(s: Seq<u8>, k: int)
    requires
        0 <= k <= s.len(),
        forall|j: int| 0 <= j < s.len() ==> is_digit(#[trigger] s[j]),
    ensures
        digits_value(s.subrange(0, k)) <= digits_value(s),
    decreases s.len(),
{
    if k < s.len() {
        lemma_digits_value_nonneg(s.drop_last());
        lemma_digits_value_prefix(s.drop_last(), k);
        assert(s.drop_last().subrange(0, k) =~= s.subrange(0, k));
    } else {
        assert(s.subrange(0, k) =~= s);
    }
}

/// A byte that occurs in a sequence is counted.
proof fn lemma_count_positive(s: Seq<u8>, k: int)
    requires
        0 <= k < s.len(),
    ensures
        count_of(s, s[k]) > 0,
    decreases s.len(),
{
    if k < s.len() - 1 {
        lemma_count_positive(s.drop_last(), k);
    }
}

/// Counts the occurrences of a byte.
fn count_byte(s: &[u8], b: u8) -> (r: usize)
    ensures
        r == count_of(s@, b),
{
    let mut r: usize = 0;
    let mut i: usize = 0;
    while i < s.len()
        invariant
            i <= s@.len(),
            r <= i,
            r == count_of(s@.subrange(0, i as int), b),
        decreases s@.len() - i,
    {
        assert(s@.subrange(0, i + 1).drop_last() =~= s@.subrange(0, i as int));
        if s[i] == b {
            r += 1;
        }
        i += 1;
    }
    assert(s@.subrange(0, s@.len() as int) =~= s@);
    r
}

/// The value of an integer literal: an optional sign, then digits.
fn int_value(num: &[u8]) -> (r: Option<i64>)
    requires
        num@.len() >= 1,
        is_digit(num@[0]) || num@[0] == 45 || num@[0] == 43,
        forall|k: int| 1 <= k < num@.len() ==> is_digit(#[trigger] num@[k]),
    ensures
        r == int_literal(num@),
{
    let n = num.len();
    let neg = num[0] == 45u8;
    let start: usize = if num[0] == 45u8 || num[0] == 43u8 {
        1
    } else {
        0
    };
    let ghost ds = split_sign(num@).1;
    assert(ds =~= num@.subrange(start as int, n as int));
    if start >= n {
        return None;
    }
    let mut acc: u128 = 0;
    let mut i: usize = start;
    while i < n
        invariant
            start <= i <= n,
            n == num@.len(),
            ds == num@.subrange(start as int, n as int),
            ds == split_sign(num@).1,
            neg == split_sign(num@).0,
            forall|k: int| 0 <= k < ds.len() ==> is_digit(#[trigger] ds[k]),
            acc == digits_value(ds.subrange(0, i - start)),
            acc <= 0x8000_0000_0000_0000,
        decreases n - i,
    {
        assert(ds.subrange(0, i + 1 - start).drop_last() =~= ds.subrange(0, i - start));
        assert(ds[i - start] == num@[i as int]);
        assert(is_digit(ds[i - start]));
        let d = (num[i] - 48u8) as u128;
        acc = acc * 10 + d;
        assert(acc == digits_value(ds.subrange(0, i + 1 - start)));
        if acc > 0x8000_0000_0000_0000 {
            proof {
                lemma_digits_value_prefix(ds, i + 1 - start);
            }
            return None;
        }
        i += 1;
    }
    assert(ds.subrange(0, n - start) =~= ds);
    if neg {
        if acc == 0x8000_0000_0000_0000 {
            Some(i64::MIN)
        } else {
            Some(-(acc as i64))
        }
    } else if acc <= 0x7fff_ffff_ffff_ffff {
        Some(acc as i64)
    } else {
        None
    }
}

/// Whether a number literal (an optional sign, then digits and dots) is a
/// float literal.
fn float_ok(num: &[u8]) -> (r: bool)
    requires
        num@.len() >= 1,
    ensures
        r == float_literal_ok(num@),
{
    let n = num.len();
    let start: usize = if num[0] == 45u8 || num[0] == 43u8 {
        1
    } else {
        0
    };
    let body = &num[start..n];
    assert(body@ =~= split_sign(num@).1);
    count_byte(body, 46u8) == 1 && n - start >= 2
}

/// The position of the lexer after `k` calls of `read` from `p`.
pub open spec fn lex_pos_after(d: Seq<u8>, p: nat, k: nat) -> nat
    decreases k,
{
    if k == 0 {
        p
    } else {
        lex_step(d, lex_pos_after(d, p, (k - 1) as nat)).1
    }
}

/// How the tokens go on once the lexer stops making progress.
pub enum Tail {
    /// From here on every `read` gives this value and leaves the lexer where
    /// it is.
    Repeat(Option<Token>),
    /// The next `read` meets this byte, which opens no token, and panics.
    Unexpected(u8),
}

/// Whether the `k`-th call of `read` from `p` does not panic and gives `item`.
pub open spec fn lexed_item(d: Seq<u8>, p: nat, k: nat, item: Option<Token>) -> bool {
    !lex_panics(d, lex_pos_after(d, p, k)) && denotes(item, lex_step(d, lex_pos_after(d, p, k)).0)
}

/// Whether `items` are the results of the first calls of `read` from `p`.
pub open spec fn lexes_prefix(d: Seq<u8>, p: nat, items: Seq<Option<Token>>) -> bool {
    forall|k: int| 0 <= k < items.len() ==> #[trigger] lexed_item(d, p, k as nat, items[k])
}

/// Whether `items` are the results of the first calls of `read` from `p`,
/// and `tail` tells what comes after them.
pub open spec fn lexes_to(d: Seq<u8>, p: nat, items: Seq<Option<Token>>, tail: Tail) -> bool {
    &&& lexes_prefix(d, p, items)
    &&& ({
        let q = lex_pos_after(d, p, items.len());
        match tail {
            Tail::Unexpected(b) => lex_panics(d, q) && b == d[trivia_end(d, q) as int],
            Tail::Repeat(t) => !lex_panics(d, q) && lex_step(d, q).1 == q && denotes(
                t,
                lex_step(d, q).0,
            ),
        }
    })
}

pub proof fn lemma_trivia_end_bounds(d: Seq<u8>, i: nat)
    requires
        i <= d.len(),
    ensures
        (i <= trivia_end(d, i) <= d.len()) || (d.len() >= 1 && d[d.len() - 1] == 47 && i < d.len()
            && trivia_end(d, i) == if d.len() >= 2 {
            (d.len() - 2) as nat
        } else {
            0
        }),
    decreases d.len() - i,
{
    if i < d.len() {
        if is_ws(d[i as int]) {
            lemma_trivia_end_bounds(d, i + 1);
        } else if d[i as int] == 47 && i + 1 < d.len() && d[i + 1int] == 47 {
            lemma_line_end_bounds(d, i + 2);
            lemma_trivia_end_bounds(d, line_end(d, i + 2));
        }
    }
}

/// A `read` that does not panic never moves the lexer back.
pub proof fn lemma_lex_step_forward(d: Seq<u8>, p: nat)
    requires
        p <= d.len(),
        !lex_panics(d, p),
    ensures
        p <= lex_step(d, p).1 <= d.len(),
{
    let q = trivia_end(d, p);
    lemma_trivia_end_bounds(d, p);
    if q < d.len() {
        lemma_alpha_run(d, q + 1);
        lemma_number_run(d, q + 1);
        lemma_quote_index(d, q + 1);
    }
}

// ---------------------------------------------------------------------------
// The lexer
// ---------------------------------------------------------------------------

/// A lexer over a byte slice.
pub struct Lexer<'a> {
    data: &'a [u8],
    pos: usize,
}

impl<'a> Lexer<'a> {
    #[verifier::type_invariant]
    spec fn inv(self) -> bool {
        self.pos <= self.data@.len()
    }

    /// The bytes being lexed.
    pub closed spec fn bytes(self) -> Seq<u8> {
        self.data@
    }

    /// The index of the next byte to read.
    pub closed spec fn position(self) -> nat {
        self.pos as nat
    }

    pub fn new(data: &'a [u8]) -> (l: Self)
        ensures
            l.bytes() == data@,
            l.position() == 0,
    {
        Self { data, pos: 0 }
    }

    /// Reads the next byte, if there is one.
    pub fn read_byte(&mut self) -> (r: Option<u8>)
        ensures
            final(self).bytes() == old(self).bytes(),
            old(self).position() < old(self).bytes().len() ==> r == Some(
                old(self).bytes()[old(self).position() as int],
            ) && final(self).position() == old(self).position() + 1,
            old(self).position() >= old(self).bytes().len() ==> r is None && final(self).position()
                == old(self).position(),
    {
        proof {
            use_type_invariant(&*self);
        }
        if self.pos >= self.data.len() {
            None
        } else {
            let curr = self.data[self.pos];
            self.pos += 1;
            Some(curr)
        }
    }

    /// Steps back over one byte, unless at the start.
    pub fn unread_byte(&mut self)
        ensures
            final(self).bytes() == old(self).bytes(),
            final(self).position() == if old(self).position() > 0 {
                (old(self).position() - 1) as nat
            } else {
                0
            },
    {
        proof {
            use_type_invariant(&*self);
        }
        if self.pos > 0 {
            self.pos -= 1;
        }
    }

    /// Skips the rest of the current line, its line feed included.
    pub fn skip_line(&mut self)
        ensures
            final(self).bytes() == old(self).bytes(),
            final(self).position() == line_end(old(self).bytes(), old(self).position()),
    {
        proof {
            use_type_invariant(&*self);
        }
        loop
            invariant
                self.bytes() == old(self).bytes(),
                self.position() <= self.bytes().len(),
                line_end(self.bytes(), self.position()) == line_end(
                    old(self).bytes(),
                    old(self).position(),
                ),
            decreases self.bytes().len() - self.position(),
        {
            proof {
                use_type_invariant(&*self);
            }
            match self.read_byte() {
                None => return ,
                Some(10u8) => {
                    return ;
                },
                _ => {},
            }
            proof {
                use_type_invariant(&*self);
            }
        }
    }

    /// Skips whitespace and `//` comments.
    pub fn skip_whitespace_and_comments(&mut self)
        ensures
            final(self).bytes() == old(self).bytes(),
            final(self).position() == trivia_end(old(self).bytes(), old(self).position()),
    {
        proof {
            use_type_invariant(&*self);
        }
        loop
            invariant
                self.bytes() == old(self).bytes(),
                self.position() <= self.bytes().len(),
                trivia_end(self.bytes(), self.position()) == trivia_end(
                    old(self).bytes(),
                    old(self).position(),
                ),
            decreases self.bytes().len() - self.position(),
        {
            let ghost p = self.position();
            match self.read_byte() {
                None => return ,
                Some(b) if is_ws_byte(b) => {},
                Some(47u8) => match self.read_byte() {
                    Some(47u8) => {
                        self.skip_line();
                        proof {
                            lemma_line_end_bounds(self.bytes(), p + 2);
                        }
                    },
                    _ => {
                        self.unread_byte();
                        self.unread_byte();
                        return ;
                    },
                },
                _ => {
                    self.unread_byte();
                    return ;
                },
            }
            proof {
                use_type_invariant(&*self);
            }
        }
    }

    /// Reads a word whose first letter was just read.
    fn read_literal(&mut self) -> (t: Option<Token>)
        requires
            old(self).position() >= 1,
            is_alpha(old(self).bytes()[old(self).position() - 1]),
        ensures
            final(self).bytes() == old(self).bytes(),
            final(self).position() == alpha_end(old(self).bytes(), old(self).position()),
            denotes(
                t,
                Some(
                    word_lexeme(
                        old(self).bytes().subrange(
                            old(self).position() - 1,
                            final(self).position() as int,
                        ),
                    ),
                ),
            ),
    {
        proof {
            use_type_invariant(&*self);
            lemma_alpha_run(self.bytes(), self.position());
        }
        let start = self.pos - 1;
        loop
            invariant
                self.bytes() == old(self).bytes(),
                start + 1 == old(self).position(),
                old(self).position() <= self.position() <= self.bytes().len(),
                alpha_end(self.bytes(), self.position()) == alpha_end(
                    old(self).bytes(),
                    old(self).position(),
                ),
                alpha_end(self.bytes(), self.position()) <= self.bytes().len(),
                forall|k: int|
                    old(self).position() <= k < alpha_end(self.bytes(), self.position())
                        ==> is_alpha(#[trigger] self.bytes()[k]),
                is_alpha(self.bytes()[start as int]),
            decreases self.bytes().len() - self.position(),
        {
            proof {
                use_type_invariant(&*self);
            }
            match self.read_byte() {
                Some(val) if is_alpha_byte(val) => {},
                x => {
                    if x.is_some() {
                        self.unread_byte();
                    }
                    proof {
                        use_type_invariant(&*self);
                    }
                    let lit = &self.data[start..self.pos];
                    assert(is_ascii_bytes(lit@)) by {
                        assert forall|k: int| 0 <= k < lit@.len() implies lit@[k] < 128 by {
                            assert(lit@[k] == self.bytes()[start + k]);
                        }
                    }
                    return match Lexer::read_kw(lit) {
                        Some(k) => Some(k),
                        None => Some(Token::Ident(lossy_string(lit))),
                    };
                },
            }
        }
    }

    /// Reads a string literal whose opening quote was just read.
    fn read_string(&mut self) -> (t: Option<Token>)
        ensures
            final(self).bytes() == old(self).bytes(),
            ({
                let d = old(self).bytes();
                let e = quote_index(d, old(self).position());
                if e < d.len() {
                    final(self).position() == e + 1 && denotes(
                        t,
                        Some(Lexeme::Text(string_text(d.subrange(old(self).position() as int, e as int)))),
                    )
                } else {
                    final(self).position() == d.len() && t is None
                }
            }),
    {
        proof {
            use_type_invariant(&*self);
        }
        let start = self.pos;
        loop
            invariant
                self.bytes() == old(self).bytes(),
                start == old(self).position(),
                start <= self.position() <= self.bytes().len(),
                quote_index(self.bytes(), self.position()) == quote_index(self.bytes(), start as nat),
            decreases self.bytes().len() - self.position(),
        {
            proof {
                use_type_invariant(&*self);
            }
            let b = self.read_byte()?;
            if b == 34u8 {
                return Some(Token::String(lossy_string(&self.data[start..self.pos - 1])));
            }
        }
    }

    /// Reads a number literal whose first byte was just read.
    fn read_number(&mut self) -> (t: Option<Token>)
        requires
            old(self).position() >= 1,
            starts_number(old(self).bytes()[old(self).position() - 1]),
        ensures
            final(self).bytes() == old(self).bytes(),
            final(self).position() == number_end(old(self).bytes(), old(self).position()),
            denotes(
                t,
                number_lexeme(
                    old(self).bytes().subrange(
                        old(self).position() - 1,
                        final(self).position() as int,
                    ),
                ),
            ),
    {
        proof {
            use_type_invariant(&*self);
            lemma_number_run(self.bytes(), self.position());
        }
        let start = self.pos - 1;
        loop
            invariant
                self.bytes() == old(self).bytes(),
                start + 1 == old(self).position(),
                old(self).position() <= self.position() <= self.bytes().len(),
                number_end(self.bytes(), self.position()) == number_end(
                    old(self).bytes(),
                    old(self).position(),
                ),
                number_end(self.bytes(), self.position()) <= self.bytes().len(),
                forall|k: int|
                    old(self).position() <= k < number_end(self.bytes(), self.position())
                        ==> in_number(#[trigger] self.bytes()[k]),
                starts_number(self.bytes()[start as int]),
            decreases self.bytes().len() - self.position(),
        {
            proof {
                use_type_invariant(&*self);
            }
            match self.read_byte() {
                Some(x) if is_digit_byte(x) || x == 46u8 => {},
                x => {
                    if x.is_some() {
                        self.unread_byte();
                    }
                    proof {
                        use_type_invariant(&*self);
                    }
                    let num = &self.data[start..self.pos];
                    assert(is_ascii_bytes(num@)) by {
                        assert forall|k: int| 0 <= k < num@.len() implies num@[k] < 128 by {
                            assert(num@[k] == self.bytes()[start + k]);
                        }
                    }
                    if count_byte(num, 46u8) > 0 {
                        if float_ok(num) {
                            return Some(Token::Float(lossy_string(num)));
                        } else {
                            return None;
                        }
                    } else {
                        assert forall|k: int| 1 <= k < num@.len() implies is_digit(
                            #[trigger] num@[k],
                        ) by {
                            assert(num@[k] == self.bytes()[start + k]);
                            assert(in_number(self.bytes()[start + k]));
                            if num@[k] == 46u8 {
                                lemma_count_positive(num@, k);
                            }
                        }
                        if num[0] == 46u8 {
                            proof {
                                lemma_count_positive(num@, 0);
                            }
                        }
                        return match int_value(num) {
                            Some(n) => Some(Token::Int(n)),
                            None => None,
                        };
                    }
                },
            }
        }
    }

    /// The byte that would stop the next `read` with a panic, if any: the
    /// first byte after whitespace and comments, when it opens no token.
    pub fn unexpected_char(&self) -> (r: Option<u8>)
        ensures
            r is Some <==> lex_panics(self.bytes(), self.position()),
            r matches Some(b) ==> b == self.bytes()[trivia_end(
                self.bytes(),
                self.position(),
            ) as int],
    {
        proof {
            use_type_invariant(self);
        }
        let mut probe = Lexer { data: self.data, pos: self.pos };
        probe.skip_whitespace_and_comments();
        match probe.read_byte() {
            None => None,
            Some(b) => if starts_token_byte(b) {
                None
            } else {
                Some(b)
            },
        }
    }

    /// Reads the next token.
    ///
    /// `None` comes at the end of the input, after an unterminated string
    /// literal, and after a number literal that does not parse.
    pub fn read(&mut self) -> (t: Option<Token>)
        requires
            !lex_panics(old(self).bytes(), old(self).position()),
        ensures
            final(self).bytes() == old(self).bytes(),
            final(self).position() == lex_step(old(self).bytes(), old(self).position()).1,
            denotes(t, lex_step(old(self).bytes(), old(self).position()).0),
    {
        self.skip_whitespace_and_comments();
        let b = match self.read_byte() {
            None => return None,
            Some(b) => b,
        };
        if b == 59u8 {
            Some(Token::Semicolon)
        } else if b == 40u8 {
            Some(Token::LParen)
        } else if b == 41u8 {
            Some(Token::RParen)
        } else if b == 123u8 {
            Some(Token::LBrace)
        } else if b == 125u8 {
            Some(Token::RBrace)
        } else if b == 58u8 {
            match self.read_byte() {
                Some(61u8) => Some(Token::Assign),
                _ => {
                    self.unread_byte();
                    Some(Token::Colon)
                },
            }
        } else if b == 34u8 {
            self.read_string()
        } else if is_alpha_byte(b) {
            self.read_literal()
        } else if is_digit_byte(b) || b == 46u8 || b == 43u8 || b == 45u8 {
            self.read_number()
        } else {
            unreached()
        }
    }

    /// The next token: the same as `read`.
    pub fn next(&mut self) -> (t: Option<Token>)
        requires
            !lex_panics(old(self).bytes(), old(self).position()),
        ensures
            final(self).bytes() == old(self).bytes(),
            final(self).position() == lex_step(old(self).bytes(), old(self).position()).1,
            denotes(t, lex_step(old(self).bytes(), old(self).position()).0),
    {
        self.read()
    }

    /// Reads tokens until the lexer stops making progress or meets a byte
    /// that opens no token.
    pub(crate) fn drain(self) -> (r: (Vec<Option<Token>>, Tail))
        ensures
            lexes_to(self.bytes(), self.position(), r.0@, r.1),
    {
        let ghost d = self.bytes();
        let ghost p = self.position();
        let mut lexer = self;
        let mut items: Vec<Option<Token>> = Vec::new();
        proof {
            use_type_invariant(&lexer);
        }
        loop
            invariant
                d == self.bytes(),
                p == self.position(),
                lexer.bytes() == d,
                lexer.position() <= d.len(),
                lexer.position() == lex_pos_after(d, p, items@.len()),
                lexes_prefix(d, p, items@),
            decreases d.len() - lexer.position(),
        {
            if let Some(b) = lexer.unexpected_char() {
                return (items, Tail::Unexpected(b));
            }
            let before = lexer.pos;
            proof {
                lemma_lex_step_forward(d, lexer.position());
            }
            let t = lexer.read();
            if lexer.pos == before {
                return (items, Tail::Repeat(t));
            }
            let ghost old_items = items@;
            items.push(t);
            assert forall|k: int| 0 <= k < items@.len() implies #[trigger] lexed_item(
                d,
                p,
                k as nat,
                items@[k],
            ) by {
                if k < old_items.len() {
                    assert(lexed_item(d, p, k as nat, old_items[k]));
                }
            }
        }
    }

    fn read_kw(kw: &[u8]) -> (r: Option<Token>)
        ensures
            r == keyword(kw@),
    {
        let n = kw.len();
        if n == 2 && kw[0] == 102u8 && kw[1] == 110u8 {
            assert(kw@ =~= seq![102u8, 110u8]);
            Some(Token::FunctionDef)
        } else if n == 3 && kw[0] == 115u8 && kw[1] == 116u8 && kw[2] == 114u8 {
            assert(kw@ =~= seq![115u8, 116u8, 114u8]);
            Some(Token::StrType)
        } else if n == 5 && kw[0] == 102u8 && kw[1] == 108u8 && kw[2] == 111u8 && kw[3] == 97u8 && kw[4]
            == 116u8 {
            assert(kw@ =~= seq![102u8, 108u8, 111u8, 97u8, 116u8]);
            Some(Token::FloatType)
        } else if n == 3 && kw[0] == 105u8 && kw[1] == 110u8 && kw[2] == 116u8 {
            assert(kw@ =~= seq![105u8, 110u8, 116u8]);
            Some(Token::IntType)
        } else if n == 4 && kw[0] == 98u8 && kw[1] == 111u8 && kw[2] == 111u8 && kw[3] == 108u8 {
            assert(kw@ =~= seq![98u8, 111u8, 111u8, 108u8]);
            Some(Token::BoolType)
        } else if n == 4 && kw[0] == 116u8 && kw[1] == 114u8 && kw[2] == 117u8 && kw[3] == 101u8 {
            assert(kw@ =~= seq![116u8, 114u8, 117u8, 101u8]);
            Some(Token::Bool(true))
        } else if n == 5 && kw[0] == 102u8 && kw[1] == 97u8 && kw[2] == 108u8 && kw[3] == 115u8 && kw[4]
            == 101u8 {
            assert(kw@ =~= seq![102u8, 97u8, 108u8, 115u8, 101u8]);
            Some(Token::Bool(false))
        } else {
            None
        }
    }
}

} // verus!
