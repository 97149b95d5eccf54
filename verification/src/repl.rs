use vstd::prelude::*;
use vstd::string::StrSliceExecFns;
use crate::token::Token;
use crate::lexer::{Lexer, Tail, lexed_item, lexes_to, lex_panics, lex_pos_after, trivia_end};
use crate::grammar::Stream;
use crate::parser::copy_token;
use crate::laws::law_stream_follows_lexer;

verus! {

/// White space as `char::is_whitespace` defines it: the characters with the
/// Unicode property `White_Space`.
pub open spec fn is_white(c: char) -> bool {
    ('\u{9}' <= c && c <= '\u{d}') || c == ' ' || c == '\u{85}' || c == '\u{a0}' || c == '\u{1680}'
        || ('\u{2000}' <= c && c <= '\u{200a}') || c == '\u{2028}' || c == '\u{2029}' || c
        == '\u{202f}' || c == '\u{205f}' || c == '\u{3000}'
}

fn is_white_char(c: char) -> (r: bool)
    ensures
        r == is_white(c),
{
    ('\u{9}' <= c && c <= '\u{d}') || c == ' ' || c == '\u{85}' || c == '\u{a0}' || c == '\u{1680}'
        || ('\u{2000}' <= c && c <= '\u{200a}') || c == '\u{2028}' || c == '\u{2029}' || c
        == '\u{202f}' || c == '\u{205f}' || c == '\u{3000}'
}

/// The index of the first character at or after `i` that is not white
/// space.
pub open spec fn skip_white(s: Seq<char>, i: nat) -> nat
    decreases s.len() - i,
{
    if i < s.len() && is_white(s[i as int]) {
        skip_white(s, i + 1)
    } else {
        i
    }
}

/// The end of `s[lo..j]` once white space is taken off its end.
pub open spec fn skip_white_back(s: Seq<char>, lo: nat, j: nat) -> nat
    decreases j,
{
    if j > lo && is_white(s[j - 1]) {
        skip_white_back(s, lo, (j - 1) as nat)
    } else {
        j
    }
}

/// The text with white space taken off both ends, as `str::trim` does.
pub open spec fn trimmed(s: Seq<char>) -> Seq<char> {
    let a = skip_white(s, 0);
    s.subrange(a as int, skip_white_back(s, a, s.len()) as int)
}

/// What the prompt does with a line of input.
pub enum ReplInput<'a> {
    /// Nothing but white space: ask again.
    Blank,
    /// The command that ends the session.
    Exit,
    /// Source text to show the tokens of: the line without the white space
    /// around it.
    Source(&'a str),
}

/// Reads a line typed at the prompt.
pub fn classify_line(line: &str) -> (r: ReplInput)
    ensures
        match r {
            ReplInput::Blank => trimmed(line@).len() == 0,
            ReplInput::Exit => trimmed(line@) == "exit"@,
            ReplInput::Source(s) => s@ == trimmed(line@) && s@.len() > 0 && s@ != "exit"@,
        },
{
    let n = line.unicode_len();
    let mut a: usize = 0;
    while a < n && is_white_char(line.get_char(a))
        invariant
            n == line@.len(),
            a <= n,
            skip_white(line@, a as nat) == skip_white(line@, 0),
        decreases n - a,
    {
        a += 1;
    }
    let mut b: usize = n;
    while b > a && is_white_char(line.get_char(b - 1))
        invariant
            n == line@.len(),
            a <= b <= n,
            a == skip_white(line@, 0),
            skip_white_back(line@, a as nat, b as nat) == skip_white_back(line@, a as nat, n as nat),
        decreases b,
    {
        b -= 1;
    }
    let t = line.substring_char(a, b);
    proof {
        reveal_strlit("exit");
    }
    if a == b {
        ReplInput::Blank
    } else if b - a == 4 && t.get_char(0) == 'e' && t.get_char(1) == 'x' && t.get_char(2) == 'i'
        && t.get_char(3) == 't' {
        assert(t@ =~= "exit"@);
        ReplInput::Exit
    } else {
        ReplInput::Source(t)
    }
}

/// How the tokens of a line end.
pub enum LineEnd {
    /// The next `read` gives nothing.
    End,
    /// The next `read` meets this byte, which opens no token, and panics.
    Unexpected(u8),
    /// Every `read` from here on gives this token, for ever.
    Forever(Token),
}

/// The tokens that successive calls of `read` give for a line of source,
/// up to the first call that gives nothing, and how they end.
pub fn line_tokens(source: &[u8]) -> (r: (Vec<Token>, LineEnd))
    ensures
        forall|k: int|
            0 <= k < r.0@.len() ==> #[trigger] lexed_item(source@, 0, k as nat, Some(r.0@[k])),
        match r.1 {
            LineEnd::End => lexed_item(source@, 0, r.0@.len(), None),
            LineEnd::Unexpected(b) => lex_panics(source@, lex_pos_after(source@, 0, r.0@.len()))
                && b == source@[trivia_end(source@, lex_pos_after(source@, 0, r.0@.len())) as int],
            LineEnd::Forever(t) => forall|k: nat|
                k >= r.0@.len() ==> #[trigger] lexed_item(source@, 0, k, Some(t)),
        },
{
    let (items, tail) = Lexer::new(source).drain();
    let ghost s = Stream { items: items@, tail };
    let mut tokens: Vec<Token> = Vec::new();
    let mut i: usize = 0;
    while i < items.len()
        invariant
            lexes_to(source@, 0, items@, tail),
            s == (Stream { items: items@, tail }),
            i <= items@.len(),
            tokens@.len() == i,
            forall|k: int| 0 <= k < i ==> items@[k] == Some(#[trigger] tokens@[k]),
        decreases items@.len() - i,
    {
        let ghost ki: int = i as int;
        assert(lexed_item(source@, 0, ki as nat, items@[ki]));
        match &items[i] {
            None => {
                assert forall|k: int| 0 <= k < tokens@.len() implies #[trigger] lexed_item(
                    source@,
                    0,
                    k as nat,
                    Some(tokens@[k]),
                ) by {
                    assert(lexed_item(source@, 0, k as nat, items@[k]));
                }
                return (tokens, LineEnd::End);
            },
            Some(t) => {
                let t2 = copy_token(t);
                tokens.push(t2);
            },
        }
        i += 1;
    }
    assert forall|k: int| 0 <= k < tokens@.len() implies #[trigger] lexed_item(
        source@,
        0,
        k as nat,
        Some(tokens@[k]),
    ) by {
        assert(lexed_item(source@, 0, k as nat, items@[k]));
    }
    match tail {
        Tail::Repeat(None) => (tokens, LineEnd::End),
        Tail::Repeat(Some(t)) => {
            assert forall|k: nat| k >= tokens@.len() implies #[trigger] lexed_item(
                source@,
                0,
                k,
                Some(t),
            ) by {
                law_stream_follows_lexer(source@, 0, s, k);
            }
            (tokens, LineEnd::Forever(t))
        },
        Tail::Unexpected(b) => (tokens, LineEnd::Unexpected(b)),
    }
}

} // verus!
