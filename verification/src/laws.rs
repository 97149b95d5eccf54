use vstd::prelude::*;
use crate::token::{Token, TokenView};
use crate::lexer::{
    Lexeme, Tail, lex_step, lex_pos_after, lex_panics, lexes_to, lexed_item, trivia_end,
    number_end, number_lexeme, int_literal, digits_value, split_sign, count_of, is_digit,
    in_number, is_ws, line_end, lemma_trivia_end_bounds, lemma_alpha_run, lemma_number_run,
    lemma_quote_index, lemma_line_end_bounds, denotes, is_alpha, alpha_end,
};
use crate::grammar::{Stream, Next, Parsed, split_path};
use crate::ast::{Expression, StaticType};
use crate::codegen::{go_expr, go_program, go_import_lines, go_import};
use crate::codegen::join;
use crate::text::{int_text, nat_text, digit_char};

verus! {

// ---------------------------------------------------------------------------
// The lexer
// ---------------------------------------------------------------------------

/// At the end of the input, `read` gives nothing and leaves the lexer where
/// it is, so the end of the input is reported again on every further call.
pub proof fn law_end_of_input_is_sticky(d: Seq<u8>)
    ensures
        !lex_panics(d, d.len()),
        lex_step(d, d.len()) == (None::<Lexeme>, d.len()),
{
}

/// A `read` that gives a token and does not panic moves the lexer strictly
/// forward, unless the data ends in `/` or `:` (where the lexer can stay put
/// and give the same token again). So such data gives at most as many tokens
/// as it has bytes before `read` gives nothing.
pub proof fn law_read_some_advances(d: Seq<u8>, p: nat)
    requires
        p <= d.len(),
        !lex_panics(d, p),
        d.len() > 0 ==> d[d.len() - 1] != 47 && d[d.len() - 1] != 58,
    ensures
        lex_step(d, p).0 is Some ==> p < lex_step(d, p).1 <= d.len(),
        lex_step(d, p).0 is None ==> p <= lex_step(d, p).1 <= d.len(),
{
    crate::lexer::lemma_lex_step_forward(d, p);
    let q = trivia_end(d, p);
    lemma_trivia_end_bounds(d, p);
    if q < d.len() {
        lemma_alpha_run(d, q + 1);
        lemma_number_run(d, q + 1);
        lemma_quote_index(d, q + 1);
    }
}

/// Whether the bytes from `i` on are only whitespace and `//` comments, each
/// comment running through the next line feed or to the end.
pub open spec fn only_trivia(d: Seq<u8>, i: nat) -> bool
    decreases d.len() - i,
{
    if i >= d.len() {
        true
    } else if is_ws(d[i as int]) {
        only_trivia(d, i + 1)
    } else if d[i as int] == 47 && i + 1 < d.len() && d[i + 1int] == 47 {
        proof {
            lemma_line_end_bounds(d, i + 2);
        }
        only_trivia(d, line_end(d, i + 2))
    } else {
        false
    }
}

/// On input that is only whitespace and comments, `read` gives nothing and
/// leaves the lexer at the end of the data, and so does every later `read`.
pub proof fn law_trivia_reads_nothing(d: Seq<u8>, p: nat)
    requires
        p <= d.len(),
        only_trivia(d, p),
    ensures
        trivia_end(d, p) == d.len(),
        !lex_panics(d, p),
        lex_step(d, p) == (None::<Lexeme>, d.len()),
        lex_step(d, d.len()) == (None::<Lexeme>, d.len()),
    decreases d.len() - p,
{
    if p < d.len() {
        if is_ws(d[p as int]) {
            law_trivia_reads_nothing(d, p + 1);
        } else {
            lemma_line_end_bounds(d, p + 2);
            law_trivia_reads_nothing(d, line_end(d, p + 2));
        }
    }
}

/// The view of an optional token.
pub open spec fn token_view(t: Option<Token>) -> Option<TokenView> {
    match t {
        Some(t) => Some(t@),
        None => None,
    }
}

/// Two tokens that both are what one lexeme describes are equal by view. As
/// `read` and `next` state the same of their result, two lexers in the same
/// state give equal tokens, whichever of the two is called.
pub proof fn law_read_is_deterministic(a: Option<Token>, b: Option<Token>, l: Option<Lexeme>)
    requires
        denotes(a, l),
        denotes(b, l),
    ensures
        token_view(a) == token_view(b),
{
}

proof fn lemma_fixed_point_stays(d: Seq<u8>, p: nat, n: nat, k: nat)
    requires
        n <= k,
        lex_step(d, lex_pos_after(d, p, n)).1 == lex_pos_after(d, p, n),
    ensures
        lex_pos_after(d, p, k) == lex_pos_after(d, p, n),
    decreases k - n,
{
    if k > n {
        lemma_fixed_point_stays(d, p, n, (k - 1) as nat);
    }
}

/// The token stream that a parser reads is what successive calls of the
/// lexer's `read` give: at every place, the value of that call, or, past the
/// values read ahead, the byte on which that call panics.
pub proof fn law_stream_follows_lexer(d: Seq<u8>, p: nat, s: Stream, k: nat)
    requires
        lexes_to(d, p, s.items, s.tail),
    ensures
        match s.next_at(k) {
            Next::Item(t) => lexed_item(d, p, k, t),
            Next::Halt(b) => k >= s.items.len() && lex_panics(d, lex_pos_after(d, p, s.items.len()))
                && b == d[trivia_end(d, lex_pos_after(d, p, s.items.len())) as int],
        },
{
    if k < s.items.len() {
        let ki: int = k as int;
        assert(lexed_item(d, p, ki as nat, s.items[ki]));
    } else {
        if let Tail::Repeat(t) = s.tail {
            lemma_fixed_point_stays(d, p, s.items.len(), k);
        }
    }
}

/// The bytes of ASCII text.
pub open spec fn char_bytes(s: Seq<char>) -> Seq<u8> {
    s.map_values(|c: char| c as u8)
}

proof fn lemma_digits_of_nat_text(m: nat)
    ensures
        nat_text(m).len() >= 1,
        forall|i: int|
            0 <= i < nat_text(m).len() ==> 48 <= #[trigger] (nat_text(m)[i] as u8) <= 57 && (
            nat_text(m)[i] as u8) as char == nat_text(m)[i],
        digits_value(char_bytes(nat_text(m))) == m,
    decreases m,
{
    let bytes = char_bytes(nat_text(m));
    if m < 10 {
        assert(bytes.drop_last() =~= Seq::<u8>::empty());
        assert(bytes.last() == 48 + m);
        assert(digits_value(bytes) == digits_value(bytes.drop_last()) * 10 + (bytes.last() - 48));
    } else {
        lemma_digits_of_nat_text(m / 10);
        assert(bytes.drop_last() =~= char_bytes(nat_text(m / 10)));
        assert(nat_text(m).last() == digit_char(m % 10));
        assert(bytes.last() == 48 + m % 10);
        assert(m == (m / 10) * 10 + m % 10);
        assert(digits_value(bytes.drop_last()) == m / 10);
        assert(digits_value(bytes) == digits_value(bytes.drop_last()) * 10 + (bytes.last() - 48));
    }
}

proof fn lemma_number_end_of_digits(d: Seq<u8>, i: nat)
    requires
        i <= d.len(),
        forall|k: int| i <= k < d.len() ==> is_digit(#[trigger] d[k]),
    ensures
        number_end(d, i) == d.len(),
    decreases d.len() - i,
{
    if i < d.len() {
        lemma_number_end_of_digits(d, i + 1);
    }
}

proof fn lemma_count_absent(s: Seq<u8>, b: u8)
    requires
        forall|k: int| 0 <= k < s.len() ==> s[k] != b,
    ensures
        count_of(s, b) == 0,
    decreases s.len(),
{
    if s.len() > 0 {
        lemma_count_absent(s.drop_last(), b);
    }
}

/// The decimal text that the code generator writes for an integer is read
/// back by the lexer as that same integer, consuming all of it.
pub proof fn law_integer_text_lexes_back(n: i64)
    ensures
        ({
            let d = char_bytes(int_text(n as int));
            lex_step(d, 0) == (Some(Lexeme::Plain(Token::Int(n))), d.len())
        }),
{
    let d = char_bytes(int_text(n as int));
    let m: nat = if n < 0 {
        (-n) as nat
    } else {
        n as nat
    };
    lemma_digits_of_nat_text(m);
    let digits = char_bytes(nat_text(m));
    if n < 0 {
        reveal_strlit("-");
        assert(d =~= seq![45u8] + digits);
        assert(split_sign(d).1 =~= digits);
    } else {
        assert(d =~= digits);
    }
    assert forall|k: int| 1 <= k < d.len() implies is_digit(#[trigger] d[k]) by {
        if n < 0 {
            assert(d[k] == digits[k - 1]);
        }
    }
    assert forall|k: int| 0 <= k < d.len() implies d[k] != 46u8 by {
        if n < 0 && k > 0 {
            assert(d[k] == digits[k - 1]);
        }
    }
    lemma_number_end_of_digits(d, 1);
    lemma_count_absent(d, 46u8);
    assert(d.subrange(0, d.len() as int) =~= d);
    assert(trivia_end(d, 0) == 0);
    assert(int_literal(d) == Some(n));
}

// ---------------------------------------------------------------------------
// The parser and the code generator
// ---------------------------------------------------------------------------

/// Every statement needs the expression parser, which is not written: a
/// statement parse that returns reports an error.
pub proof fn law_statement_never_parses(s: Stream, i: nat)
    ensures
        !(s.statement(i) matches Parsed::Done(Ok(_), _)),
{
}

/// An import path, split into its parts by the parser and joined by slashes
/// again by the code generator, is the path that was written; and no part
/// holds a slash, so the parts are the text between the slashes.
pub proof fn law_import_path_round_trip(path: Seq<char>)
    ensures
        join(split_path(path), "/"@) == path,
        forall|i: int, j: int|
            0 <= i < split_path(path).len() && 0 <= j < split_path(path)[i].len() ==> #[trigger] split_path(
                path,
            )[i][j] != '/',
    decreases path.len(),
{
    reveal_strlit("/");
    if path.len() > 0 {
        let rest = path.drop_last();
        law_import_path_round_trip(rest);
        crate::grammar::lemma_split_path_nonempty(rest);
        let parts = split_path(rest);
        if path.last() == '/' {
            let parts2 = parts.push(Seq::<char>::empty());
            assert(parts2.drop_last() =~= parts);
        } else {
            let parts2 = parts.update(parts.len() - 1, parts.last().push(path.last()));
            if parts.len() >= 2 {
                assert(parts2.drop_last() =~= parts.drop_last());
            }
            assert forall|i: int, j: int|
                0 <= i < parts2.len() && 0 <= j < parts2[i].len() implies #[trigger] parts2[i][j]
                != '/' by {
                if i < parts.len() - 1 {
                    assert(parts2[i] == parts[i]);
                } else if j < parts.last().len() {
                    assert(parts2[i][j] == parts[parts.len() - 1][j]);
                }
            }
        }
        assert(path =~= rest.push(path.last()));
    } else {
        assert(join(split_path(path), "/"@) =~= path);
    }
}

/// The tokens that spell a type.
pub open spec fn type_tokens(t: StaticType) -> Seq<Token>
    decreases t,
{
    match t {
        StaticType::Str => seq![Token::StrType],
        StaticType::Float => seq![Token::FloatType],
        StaticType::Int => seq![Token::IntType],
        StaticType::Bool => seq![Token::BoolType],
        StaticType::Byte => seq![Token::ByteType],
        StaticType::Arr { inner } => seq![Token::ArrayType, Token::LSqareBracket] + type_tokens(
            *inner,
        ) + seq![Token::RSqareBracket],
        StaticType::Opt { inner } => seq![Token::OptType, Token::LSqareBracket] + type_tokens(
            *inner,
        ) + seq![Token::RSqareBracket],
        StaticType::Res { inner } => seq![Token::ResType, Token::LSqareBracket] + type_tokens(
            *inner,
        ) + seq![Token::RSqareBracket],
        StaticType::Mapping { keys, values } => seq![Token::MapType, Token::LSqareBracket]
            + type_tokens(*keys) + seq![Token::Comma] + type_tokens(*values) + seq![
            Token::RSqareBracket,
        ],
    }
}

/// Whether the stream holds the tokens `ts` from place `i` on.
pub open spec fn holds_at(s: Stream, i: nat, ts: Seq<Token>) -> bool {
    &&& i + ts.len() <= s.items.len()
    &&& forall|k: int| 0 <= k < ts.len() ==> s.items[i + k] == Some(#[trigger] ts[k])
}

pub proof fn lemma_holds_part(s: Stream, i: nat, ts: Seq<Token>, a: int, b: int)
    requires
        holds_at(s, i, ts),
        0 <= a <= b <= ts.len(),
    ensures
        holds_at(s, (i + a) as nat, ts.subrange(a, b)),
{
    assert forall|k: int| 0 <= k < b - a implies s.items[i + a + k] == Some(
        #[trigger] ts.subrange(a, b)[k],
    ) by {
        assert(ts.subrange(a, b)[k] == ts[a + k]);
    }
}

/// The tokens that spell a type parse back as that type, all of them
/// consumed.
#[verifier::rlimit(40)]
pub proof fn law_type_tokens_parse(s: Stream, i: nat, t: StaticType)
    requires
        holds_at(s, i, type_tokens(t)),
    ensures
        s.static_type(i) == Parsed::Done(Ok(t), type_tokens(t).len()),
    decreases t,
{
    reveal(Stream::static_type);
    let ts = type_tokens(t);
    let ii = i as int;
    assert(s.items[ii + 0] == Some(ts[0]));
    match t {
        StaticType::Arr { inner } | StaticType::Opt { inner } | StaticType::Res { inner } => {
            let n = type_tokens(*inner).len() as int;
            assert(s.items[ii + 1] == Some(ts[1]));
            lemma_holds_part(s, i, ts, 2, 2 + n);
            assert(ts.subrange(2, 2 + n) =~= type_tokens(*inner));
            law_type_tokens_parse(s, i + 2, *inner);
            assert(s.items[ii + (2 + n)] == Some(ts[2 + n]));
        },
        StaticType::Mapping { keys, values } => {
            let kn = type_tokens(*keys).len() as int;
            let vn = type_tokens(*values).len() as int;
            assert(s.items[ii + 1] == Some(ts[1]));
            lemma_holds_part(s, i, ts, 2, 2 + kn);
            assert(ts.subrange(2, 2 + kn) =~= type_tokens(*keys));
            law_type_tokens_parse(s, i + 2, *keys);
            assert(s.items[ii + (2 + kn)] == Some(ts[2 + kn]));
            lemma_holds_part(s, i, ts, 3 + kn, 3 + kn + vn);
            assert(ts.subrange(3 + kn, 3 + kn + vn) =~= type_tokens(*values));
            law_type_tokens_parse(s, (i + 3 + kn) as nat, *values);
            assert(s.items[ii + (3 + kn + vn)] == Some(ts[3 + kn + vn]));
        },
        _ => {},
    }
}

// ---------------------------------------------------------------------------
// Identifiers
// ---------------------------------------------------------------------------

/// Whether `w` is one of the words `fn str float int bool true false`.
pub open spec fn is_keyword_word(w: Seq<u8>) -> bool {
    w == seq![102u8, 110u8] || w == seq![115u8, 116u8, 114u8] || w == seq![
        102u8,
        108u8,
        111u8,
        97u8,
        116u8,
    ] || w == seq![105u8, 110u8, 116u8] || w == seq![98u8, 111u8, 111u8, 108u8] || w == seq![
        116u8,
        114u8,
        117u8,
        101u8,
    ] || w == seq![102u8, 97u8, 108u8, 115u8, 101u8]
}

proof fn lemma_alpha_end_of_run(d: Seq<u8>, i: nat, e: nat)
    requires
        i <= e <= d.len(),
        forall|k: int| i <= k < e ==> is_alpha(#[trigger] d[k]),
        e == d.len() || !is_alpha(d[e as int]),
    ensures
        alpha_end(d, i) == e,
    decreases e - i,
{
    if i < e {
        lemma_alpha_end_of_run(d, i + 1, e);
    }
}

/// A `read` from `p` whose first byte past whitespace and comments, at `q`,
/// opens a run of letters `d[q..e]` that is not a keyword gives an
/// identifier whose name is that whole run, character for character, and
/// leaves the lexer just past the run.
pub proof fn law_identifier_is_the_whole_run(
    d: Seq<u8>,
    p: nat,
    q: nat,
    e: nat,
    t: Option<Token>,
)
    requires
        p <= d.len(),
        q == trivia_end(d, p),
        q < e <= d.len(),
        forall|k: int| q <= k < e ==> is_alpha(#[trigger] d[k]),
        e == d.len() || !is_alpha(d[e as int]),
        !is_keyword_word(d.subrange(q as int, e as int)),
        denotes(t, lex_step(d, p).0),
    ensures
        !lex_panics(d, p),
        lex_step(d, p).1 == e,
        t matches Some(Token::Ident(name)) && name@.len() == e - q && forall|k: int|
            0 <= k < e - q ==> #[trigger] name@[k] == d[q + k] as char,
{
    assert(is_alpha(d[q as int]));
    lemma_alpha_end_of_run(d, q + 1, e);
}

// ---------------------------------------------------------------------------
// Decimal text
// ---------------------------------------------------------------------------

/// Whether `t` is the plain decimal text of `v`: digits only, with that
/// value, and no leading zero unless it is the single digit `0`.
pub open spec fn is_decimal_text(t: Seq<char>, v: nat) -> bool {
    &&& t.len() >= 1
    &&& forall|i: int| 0 <= i < t.len() ==> '0' <= #[trigger] t[i] <= '9'
    &&& digits_value(char_bytes(t)) == v
    &&& (t.len() == 1 || t[0] != '0')
}

proof fn lemma_nat_text_is_decimal(m: nat)
    ensures
        is_decimal_text(nat_text(m), m),
        m > 0 ==> nat_text(m)[0] != '0',
    decreases m,
{
    lemma_digits_of_nat_text(m);
    if m >= 10 {
        lemma_nat_text_is_decimal(m / 10);
        assert(nat_text(m)[0] == nat_text(m / 10)[0]);
    } else {
        assert(nat_text(m)[0] == digit_char(m));
        assert((digit_char(m) as u8) == 48 + m);
    }
    assert forall|i: int| 0 <= i < nat_text(m).len() implies '0' <= #[trigger] nat_text(m)[i] <= '9' by {
        assert(48 <= (nat_text(m)[i] as u8) <= 57);
    }
}

/// A byte is written as its plain decimal text, the same text as the
/// integer with that value.
pub proof fn law_byte_text(b: u8)
    ensures
        is_decimal_text(go_expr(Expression::Byte(b)), b as nat),
        go_expr(Expression::Byte(b)) == go_expr(Expression::Integer(b as i64)),
{
    lemma_nat_text_is_decimal(b as nat);
}

/// An integer is written as its plain decimal text, after a minus sign when
/// it is negative.
pub proof fn law_integer_text(n: i64)
    ensures
        n >= 0 ==> is_decimal_text(go_expr(Expression::Integer(n)), n as nat),
        n < 0 ==> go_expr(Expression::Integer(n))[0] == '-' && is_decimal_text(
            go_expr(Expression::Integer(n)).drop_first(),
            (-n) as nat,
        ),
{
    reveal_strlit("-");
    if n >= 0 {
        lemma_nat_text_is_decimal(n as nat);
    } else {
        lemma_nat_text_is_decimal((-n) as nat);
        assert(go_expr(Expression::Integer(n)).drop_first() =~= nat_text((-n) as nat));
    }
}

/// The lines of an import block for the given paths: each path in quotes,
/// indented by four spaces, on a line of its own.
pub open spec fn quoted_lines(paths: Seq<Seq<char>>) -> Seq<char>
    decreases paths.len(),
{
    if paths.len() == 0 {
        seq![]
    } else {
        quoted_lines(paths.drop_last()) + "    \""@ + paths.last() + "\"\n"@
    }
}

/// Imports split into their parts by the parser are written back by the code
/// generator as their whole paths, in order, each on a line of its own in the
/// import block.
pub proof fn law_import_block(paths: Seq<Seq<char>>)
    ensures
        go_program(paths.map_values(|p: Seq<char>| split_path(p))) == "import (\n"@ + quoted_lines(
            paths,
        ) + ")\n"@,
    decreases paths.len(),
{
    lemma_import_lines(paths);
}

proof fn lemma_import_lines(paths: Seq<Seq<char>>)
    ensures
        go_import_lines(paths.map_values(|p: Seq<char>| split_path(p))) == quoted_lines(paths),
    decreases paths.len(),
{
    let parts = paths.map_values(|p: Seq<char>| split_path(p));
    if paths.len() > 0 {
        lemma_import_lines(paths.drop_last());
        assert(parts.drop_last() =~= paths.drop_last().map_values(|p: Seq<char>| split_path(p)));
        law_import_path_round_trip(paths.last());
        assert(parts.last() == split_path(paths.last()));
        assert(go_import(parts.last()) == "    \""@ + paths.last() + "\""@);
        assert(go_import_lines(parts) == quoted_lines(paths.drop_last()) + go_import(parts.last())
            + "\n"@);
        reveal_strlit("\"");
        reveal_strlit("\n");
        reveal_strlit("\"\n");
        assert(go_import_lines(parts) =~= quoted_lines(paths));
    } else {
        assert(go_import_lines(parts) =~= quoted_lines(paths));
    }
}

} // verus!
