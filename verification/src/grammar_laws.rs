use vstd::prelude::*;
use crate::token::Token;
use crate::ast::{Argument, SignatureView, FunctionView, ProgramView};
use crate::grammar::{Stream, Next, Parsed, split_path};
use crate::laws::{type_tokens, holds_at, lemma_holds_part, law_type_tokens_parse};

verus! {

/// The tokens that spell a list of parameters: each name with its type,
/// commas between them.
pub open spec fn params_tokens(args: Seq<Argument>) -> Seq<Token>
    decreases args.len(),
{
    if args.len() == 0 {
        seq![]
    } else if args.len() == 1 {
        seq![Token::Ident(args[0].identifier)] + type_tokens(args[0].arg_type)
    } else {
        seq![Token::Ident(args[0].identifier)] + type_tokens(args[0].arg_type) + seq![Token::Comma]
            + params_tokens(args.drop_first())
    }
}

/// The tokens that spell a signature: `fn`, the name, the parameters in
/// parentheses, the return type.
pub open spec fn signature_tokens(sig: SignatureView) -> Seq<Token> {
    seq![Token::FunctionDef, Token::Ident(sig.name), Token::LParen] + params_tokens(sig.args)
        + seq![Token::RParen] + type_tokens(sig.ret_type)
}

/// The tokens that spell a function with an empty body.
pub open spec fn empty_function_tokens(sig: SignatureView) -> Seq<Token> {
    signature_tokens(sig) + seq![Token::LBrace, Token::RBrace]
}

/// The tokens that spell functions with empty bodies, one after the other.
pub open spec fn empty_functions_tokens(sigs: Seq<SignatureView>) -> Seq<Token>
    decreases sigs.len(),
{
    if sigs.len() == 0 {
        seq![]
    } else {
        empty_function_tokens(sigs[0]) + empty_functions_tokens(sigs.drop_first())
    }
}

/// Functions with the given signatures and no statements.
pub open spec fn empty_functions(sigs: Seq<SignatureView>) -> Seq<FunctionView> {
    sigs.map_values(|sig: SignatureView| FunctionView { signature: sig, statements: seq![] })
}

proof fn lemma_arg_list(s: Stream, i: nat, args: Seq<Argument>)
    requires
        args.len() >= 1,
        holds_at(s, i, params_tokens(args) + seq![Token::RParen]),
    ensures
        s.arg_list(i) == Parsed::Done(Ok(args), params_tokens(args).len() + 1),
    decreases args.len(),
{
    let ts = params_tokens(args) + seq![Token::RParen];
    let a0 = args[0];
    let n0 = type_tokens(a0.arg_type).len() as int;
    let ii = i as int;
    assert(s.items[ii + 0] == Some(ts[0]));
    lemma_holds_part(s, i, ts, 1, 1 + n0);
    assert(ts.subrange(1, 1 + n0) =~= type_tokens(a0.arg_type));
    law_type_tokens_parse(s, i + 1, a0.arg_type);
    assert(s.items[ii + (1 + n0)] == Some(ts[1 + n0]));
    let arg = Argument { identifier: a0.identifier, arg_type: a0.arg_type };
    assert(s.argument(i) == Parsed::Done(Ok(arg), (1 + n0) as nat));
    if args.len() == 1 {
        assert(args =~= seq![arg]);
    } else {
        let rest = args.drop_first();
        let rn = params_tokens(rest).len() as int;
        lemma_holds_part(s, i, ts, 2 + n0, ts.len() as int);
        assert(ts.subrange(2 + n0, ts.len() as int) =~= params_tokens(rest) + seq![Token::RParen]);
        lemma_arg_list(s, (i + 2 + n0) as nat, rest);
        assert(seq![arg] + rest =~= args);
    }
}

/// The tokens that spell a signature parse as that signature, all of them
/// consumed: its name, every parameter in order with its name and type, and
/// its return type.
pub proof fn law_signature_tokens_parse(s: Stream, i: nat, sig: SignatureView)
    requires
        holds_at(s, i, signature_tokens(sig)),
    ensures
        s.signature(i) == Parsed::Done(Ok(sig), signature_tokens(sig).len()),
{
    reveal(Stream::signature);
    let ts = signature_tokens(sig);
    let ii = i as int;
    let pn = params_tokens(sig.args).len() as int;
    let rn = type_tokens(sig.ret_type).len() as int;
    assert(s.items[ii + 0] == Some(ts[0]));
    assert(s.items[ii + 1] == Some(ts[1]));
    assert(s.items[ii + 2] == Some(ts[2]));
    lemma_holds_part(s, i, ts, 4 + pn, 4 + pn + rn);
    assert(ts.subrange(4 + pn, 4 + pn + rn) =~= type_tokens(sig.ret_type));
    law_type_tokens_parse(s, (i + 4 + pn) as nat, sig.ret_type);
    if sig.args.len() == 0 {
        assert(s.items[ii + 3] == Some(ts[3]));
        assert(sig.args =~= seq![]);
    } else {
        lemma_holds_part(s, i, ts, 3, 4 + pn);
        assert(ts.subrange(3, 4 + pn) =~= params_tokens(sig.args) + seq![Token::RParen]);
        assert(s.items[ii + 3] == Some(ts[3]));
        assert(ts[3] != Token::RParen);
        lemma_arg_list(s, i + 3, sig.args);
    }
}

/// The tokens of a function with an empty body parse as that function.
pub proof fn law_empty_function_parse(s: Stream, i: nat, sig: SignatureView)
    requires
        holds_at(s, i, empty_function_tokens(sig)),
    ensures
        s.function(i) == Parsed::Done(
            Ok(FunctionView { signature: sig, statements: seq![] }),
            empty_function_tokens(sig).len(),
        ),
{
    let ts = empty_function_tokens(sig);
    let n = signature_tokens(sig).len() as int;
    let ii = i as int;
    lemma_holds_part(s, i, ts, 0, n);
    assert(ts.subrange(0, n) =~= signature_tokens(sig));
    law_signature_tokens_parse(s, i, sig);
    assert(s.items[ii + n] == Some(ts[n]));
    assert(s.items[ii + (n + 1)] == Some(ts[n + 1]));
}

/// A run of functions with empty bodies, followed by anything but `fn`,
/// parses as those functions, in order, none left out.
pub proof fn law_functions_parse(s: Stream, i: nat, sigs: Seq<SignatureView>)
    requires
        holds_at(s, i, empty_functions_tokens(sigs)),
        s.next_at(i + empty_functions_tokens(sigs).len()) is Item,
        s.next_at(i + empty_functions_tokens(sigs).len()) != Next::Item(Some(Token::FunctionDef)),
    ensures
        s.functions(i) == Parsed::Done(Ok(empty_functions(sigs)), empty_functions_tokens(sigs).len()),
    decreases sigs.len(),
{
    let ts = empty_functions_tokens(sigs);
    if sigs.len() == 0 {
        assert(empty_functions(sigs) =~= seq![]);
    } else {
        let n = empty_function_tokens(sigs[0]).len() as int;
        let ii = i as int;
        lemma_holds_part(s, i, ts, 0, n);
        assert(ts.subrange(0, n) =~= empty_function_tokens(sigs[0]));
        law_empty_function_parse(s, i, sigs[0]);
        assert(s.items[ii + 0] == Some(ts[0]));
        lemma_holds_part(s, i, ts, n, ts.len() as int);
        assert(ts.subrange(n, ts.len() as int) =~= empty_functions_tokens(sigs.drop_first()));
        law_functions_parse(s, (i + n) as nat, sigs.drop_first());
        assert(i + n + empty_functions_tokens(sigs.drop_first()).len() == i + ts.len());
        s.lemma_signature_progress(i);
        assert(seq![FunctionView { signature: sigs[0], statements: seq![] }] + empty_functions(
            sigs.drop_first(),
        ) =~= empty_functions(sigs));
    }
}

/// The tokens that spell imports: `use`, the path as a string, `;`, for
/// each path in order.
pub open spec fn import_tokens(paths: Seq<String>) -> Seq<Token>
    decreases paths.len(),
{
    if paths.len() == 0 {
        seq![]
    } else {
        seq![Token::Use, Token::String(paths[0]), Token::Semicolon] + import_tokens(
            paths.drop_first(),
        )
    }
}

/// The parts of each path, split at its slashes.
pub open spec fn import_parts(paths: Seq<String>) -> Seq<Seq<Seq<char>>> {
    paths.map_values(|p: String| split_path(p@))
}

/// A run of imports, followed by anything but `use`, parses as the parts of
/// those paths, one import per path, in order, none left out.
pub proof fn law_imports_parse(s: Stream, i: nat, paths: Seq<String>)
    requires
        holds_at(s, i, import_tokens(paths)),
        s.next_at(i + import_tokens(paths).len()) is Item,
        s.next_at(i + import_tokens(paths).len()) != Next::Item(Some(Token::Use)),
    ensures
        s.imports(i) == Parsed::Done(Ok(import_parts(paths)), import_tokens(paths).len()),
    decreases paths.len(),
{
    let ts = import_tokens(paths);
    if paths.len() == 0 {
        assert(import_parts(paths) =~= seq![]);
    } else {
        let ii = i as int;
        assert(s.items[ii + 0] == Some(ts[0]));
        assert(s.items[ii + 1] == Some(ts[1]));
        assert(s.items[ii + 2] == Some(ts[2]));
        lemma_holds_part(s, i, ts, 3, ts.len() as int);
        assert(ts.subrange(3, ts.len() as int) =~= import_tokens(paths.drop_first()));
        law_imports_parse(s, i + 3, paths.drop_first());
        assert(seq![split_path(paths[0]@)] + import_parts(paths.drop_first()) =~= import_parts(
            paths,
        ));
    }
}

/// A program is its imports, then the functions that follow them: what the
/// two parses give one after the other.
pub proof fn law_program_is_imports_then_functions(s: Stream, i: nat)
    ensures
        s.program(i) is Done ==> s.imports(i) is Done,
        s.program(i) matches Parsed::Done(Ok(p), n) ==> s.imports(i) matches Parsed::Done(
            Ok(imps),
            a,
        ) && imps == p.imports && s.functions(i + a) == Parsed::Done(Ok(p.functions), (n - a) as nat),
{
}

/// A program without imports made of functions with empty bodies parses as
/// all those functions, in order.
pub proof fn law_program_parse(s: Stream, i: nat, sigs: Seq<SignatureView>)
    requires
        holds_at(s, i, empty_functions_tokens(sigs)),
        s.next_at(i + empty_functions_tokens(sigs).len()) is Item,
        s.next_at(i + empty_functions_tokens(sigs).len()) != Next::Item(Some(Token::FunctionDef)),
        s.next_at(i) is Item,
        s.next_at(i) != Next::Item(Some(Token::Use)),
    ensures
        s.program(i) == Parsed::Done(
            Ok(ProgramView { imports: seq![], functions: empty_functions(sigs) }),
            empty_functions_tokens(sigs).len(),
        ),
{
    law_functions_parse(s, i, sigs);
}

/// A program made of imports and then functions with empty bodies parses as
/// the parts of every import path and all those functions, in order.
pub proof fn law_program_with_imports_parse(
    s: Stream,
    i: nat,
    paths: Seq<String>,
    sigs: Seq<SignatureView>,
)
    requires
        holds_at(s, i, import_tokens(paths) + empty_functions_tokens(sigs)),
        s.next_at(i + import_tokens(paths).len() + empty_functions_tokens(sigs).len()) is Item,
        s.next_at(i + import_tokens(paths).len() + empty_functions_tokens(sigs).len())
            != Next::Item(Some(Token::FunctionDef)),
        sigs.len() == 0 ==> s.next_at(i + import_tokens(paths).len()) != Next::Item(
            Some(Token::Use),
        ),
    ensures
        s.program(i) == Parsed::Done(
            Ok(ProgramView { imports: import_parts(paths), functions: empty_functions(sigs) }),
            import_tokens(paths).len() + empty_functions_tokens(sigs).len(),
        ),
{
    let ts = import_tokens(paths) + empty_functions_tokens(sigs);
    let a = import_tokens(paths).len() as int;
    lemma_holds_part(s, i, ts, 0, a);
    assert(ts.subrange(0, a) =~= import_tokens(paths));
    lemma_holds_part(s, i, ts, a, ts.len() as int);
    assert(ts.subrange(a, ts.len() as int) =~= empty_functions_tokens(sigs));
    if sigs.len() == 0 {
        assert(ts =~= import_tokens(paths));
    } else {
        assert(empty_functions_tokens(sigs)[0] == Token::FunctionDef);
        assert(s.items[i + a + 0] == Some(ts[a + 0]));
    }
    law_imports_parse(s, i, paths);
    law_functions_parse(s, (i + a) as nat, sigs);
}

} // verus!
