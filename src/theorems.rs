use vstd::prelude::*;
use crate::literal::{LitV, NumV, EvalError, ArithOp};
use crate::token::{
    TokenV, LexState, lex, lex_step, lex_upto, lex_start, is_number_char, number_text, number_chars,
};
use crate::scope::FnDef;
use crate::expression::{
    Env, MAX_CALL_DEPTH, apply_binary, binding_power, eval_climb, eval_expr, eval_primary,
    evaluate_tokens, define, peek, call, resolve, bind, body_is_closed,
};

verus! {

/// A number, a binary operator and a number evaluate to the term that
/// applies the operator to the two numbers: in particular a division by
/// zero is no error.
pub proof fn lemma_binary_numbers(
    x: NumV,
    op: TokenV,
    y: NumV,
    args: Map<Seq<char>, LitV>,
    vars: Map<Seq<char>, LitV>,
    funcs: Map<Seq<char>, FnDef>,
)
    requires
        binding_power(op) is Some,
    ensures
        evaluate_tokens(
            seq![TokenV::Literal(LitV::Number(x)), op, TokenV::Literal(LitV::Number(y))],
            args,
            vars,
            funcs,
        ) == (apply_binary(op, LitV::Number(x), LitV::Number(y)), funcs),
        apply_binary(op, LitV::Number(x), LitV::Number(y)) is Ok,
{
    let toks = seq![TokenV::Literal(LitV::Number(x)), op, TokenV::Literal(LitV::Number(y))];
    let env = Env { vars, funcs };
    let d = MAX_CALL_DEPTH as nat;
    let rbp = binding_power(op)->Some_0.1;
    let v = apply_binary(op, LitV::Number(x), LitV::Number(y));
    assert(peek(toks, 0) == TokenV::Literal(LitV::Number(x)));
    assert(peek(toks, 1) == op);
    assert(peek(toks, 2) == TokenV::Literal(LitV::Number(y)));
    assert(peek(toks, 3) == TokenV::End);
    assert(eval_primary(toks, 0, args, env, d) == (Ok::<LitV, EvalError>(LitV::Number(x)), 1int));
    assert(eval_primary(toks, 2, args, env, d) == (Ok::<LitV, EvalError>(LitV::Number(y)), 3int));
    assert(eval_climb(LitV::Number(y), toks, 3, rbp, args, env, d) == (Ok::<LitV, EvalError>(LitV::Number(y)), 3int));
    assert(eval_expr(toks, 2, rbp, args, env, d) == (Ok::<LitV, EvalError>(LitV::Number(y)), 3int));
    assert(v is Ok);
    assert(eval_climb(v->Ok_0, toks, 3, 0, args, env, d) == (v, 3int));
    assert(eval_climb(LitV::Number(x), toks, 1, 0, args, env, d) == (v, 3int));
    assert(eval_expr(toks, 0, 0, args, env, d) == (v, 3int));
}

/// The token of a binary operator character.
pub open spec fn operator_token(c: char) -> TokenV {
    if c == '+' {
        TokenV::Add
    } else if c == '-' {
        TokenV::Hyphen
    } else if c == '*' {
        TokenV::Multiply
    } else {
        TokenV::Divide
    }
}

proof fn lemma_number_run(cs: Seq<char>, start: nat, k: nat)
    requires
        start + k <= cs.len(),
        forall|j: int| start <= j < start + k ==> is_number_char(#[trigger] cs[j]),
        lex_upto(cs, start).err is None,
        !lex_upto(cs, start).in_string,
    ensures
        lex_upto(cs, start + k) == (LexState {
            num: lex_upto(cs, start).num + cs.subrange(start as int, (start + k) as int),
            ..lex_upto(cs, start)
        }),
    decreases k,
{
    let st = lex_upto(cs, start);
    if k == 0 {
        assert(st.num + cs.subrange(start as int, start as int) =~= st.num);
    } else {
        lemma_number_run(cs, start, (k - 1) as nat);
        let c = cs[start + k - 1];
        assert(is_number_char(c));
        assert(lex_upto(cs, start + k) == lex_step(lex_upto(cs, (start + k - 1) as nat), c, start + k - 1));
        assert((st.num + cs.subrange(start as int, start + k - 1)).push(c) =~= st.num + cs.subrange(
            start as int,
            (start + k) as int,
        ));
    }
}

/// The text `a op b`, numbers `a` and `b` around one of `+ - * /` with a
/// space on each side, reads as the two numbers and the operator, and
/// evaluates to the operator's term of the two numbers, never an error.
pub proof fn lemma_text_binary_numbers(
    a: Seq<char>,
    c: char,
    b: Seq<char>,
    args: Map<Seq<char>, LitV>,
    vars: Map<Seq<char>, LitV>,
    funcs: Map<Seq<char>, FnDef>,
)
    requires
        a.len() > 0 && number_chars(a) && number_text(a),
        b.len() > 0 && number_chars(b) && number_text(b),
        c == '+' || c == '-' || c == '*' || c == '/',
    ensures
        lex(a + seq![' ', c, ' '] + b) == Ok::<Seq<TokenV>, crate::token::LexError>(
            seq![
                TokenV::Literal(LitV::Number(NumV::Lit(a))),
                operator_token(c),
                TokenV::Literal(LitV::Number(NumV::Lit(b))),
            ],
        ),
        evaluate_tokens(
            seq![
                TokenV::Literal(LitV::Number(NumV::Lit(a))),
                operator_token(c),
                TokenV::Literal(LitV::Number(NumV::Lit(b))),
            ],
            args,
            vars,
            funcs,
        ) == (apply_binary(operator_token(c), LitV::Number(NumV::Lit(a)), LitV::Number(NumV::Lit(b))), funcs),
        apply_binary(operator_token(c), LitV::Number(NumV::Lit(a)), LitV::Number(NumV::Lit(b))) is Ok,
{
    let cs = a + seq![' ', c, ' '] + b;
    let n: int = a.len() as int;
    let m: int = b.len() as int;
    assert(lex_upto(cs, 0) == lex_start());
    assert forall|j: int| 0 <= j < 0 + n implies is_number_char(#[trigger] cs[j]) by {
        assert(cs[j] == a[j]);
    }
    lemma_number_run(cs, 0, n as nat);
    assert(cs.subrange(0, n) =~= a);
    assert(Seq::<char>::empty() + a =~= a);
    let s0 = lex_upto(cs, n as nat);
    assert(s0.num == a && s0.tokens == Seq::<TokenV>::empty() && s0.word == Seq::<char>::empty());
    assert(cs[n] == ' ');
    assert(cs[n + 1] == c);
    assert(cs[n + 2] == ' ');
    let t1 = seq![TokenV::Literal(LitV::Number(NumV::Lit(a)))];
    assert(Seq::<TokenV>::empty().push(TokenV::Literal(LitV::Number(NumV::Lit(a)))) =~= t1);
    assert(lex_upto(cs, (n + 1) as nat) == lex_step(s0, ' ', n));
    let s1 = lex_upto(cs, (n + 1) as nat);
    assert(s1.tokens == t1 && s1.num.len() == 0 && s1.word.len() == 0 && s1.err is None && !s1.in_string);
    let t2 = t1.push(operator_token(c));
    assert(lex_upto(cs, (n + 2) as nat) == lex_step(s1, c, n + 1));
    let s2 = lex_upto(cs, (n + 2) as nat);
    assert(s2.tokens == t2 && s2.num.len() == 0 && s2.word.len() == 0 && s2.err is None && !s2.in_string);
    assert(lex_upto(cs, (n + 3) as nat) == lex_step(s2, ' ', n + 2));
    let s3 = lex_upto(cs, (n + 3) as nat);
    assert(s3.tokens == t2 && s3.num.len() == 0 && s3.word.len() == 0 && s3.err is None && !s3.in_string);
    assert forall|j: int| n + 3 <= j < n + 3 + m implies is_number_char(#[trigger] cs[j]) by {
        assert(cs[j] == b[j - n - 3]);
    }
    lemma_number_run(cs, (n + 3) as nat, m as nat);
    assert(cs.subrange(n + 3, n + 3 + m) =~= b);
    assert(s3.num + b =~= b);
    assert(cs.len() == n + 3 + m);
    let t3 = t2.push(TokenV::Literal(LitV::Number(NumV::Lit(b))));
    assert(t3 =~= seq![
        TokenV::Literal(LitV::Number(NumV::Lit(a))),
        operator_token(c),
        TokenV::Literal(LitV::Number(NumV::Lit(b))),
    ]);
    lemma_binary_numbers(NumV::Lit(a), operator_token(c), NumV::Lit(b), args, vars, funcs);
}

/// Adding a text to a number fails with a type error for `+`.
pub proof fn lemma_add_number_text(
    x: NumV,
    s: Seq<char>,
    args: Map<Seq<char>, LitV>,
    vars: Map<Seq<char>, LitV>,
    funcs: Map<Seq<char>, FnDef>,
)
    ensures
        evaluate_tokens(
            seq![TokenV::Literal(LitV::Number(x)), TokenV::Add, TokenV::Literal(LitV::Text(s))],
            args,
            vars,
            funcs,
        ) == (Err::<LitV, EvalError>(EvalError::ArithmeticTypeError(ArithOp::Add)), funcs),
{
    let toks = seq![TokenV::Literal(LitV::Number(x)), TokenV::Add, TokenV::Literal(LitV::Text(s))];
    let env = Env { vars, funcs };
    let d = MAX_CALL_DEPTH as nat;
    assert(peek(toks, 0) == TokenV::Literal(LitV::Number(x)));
    assert(peek(toks, 1) == TokenV::Add);
    assert(peek(toks, 2) == TokenV::Literal(LitV::Text(s)));
    assert(peek(toks, 3) == TokenV::End);
    assert(eval_primary(toks, 0, args, env, d) == (Ok::<LitV, EvalError>(LitV::Number(x)), 1int));
    assert(eval_primary(toks, 2, args, env, d) == (Ok::<LitV, EvalError>(LitV::Text(s)), 3int));
    assert(eval_climb(LitV::Text(s), toks, 3, 2, args, env, d) == (Ok::<LitV, EvalError>(LitV::Text(s)), 3int));
    assert(eval_expr(toks, 2, 2, args, env, d) == (Ok::<LitV, EvalError>(LitV::Text(s)), 3int));
    assert(eval_climb(LitV::Number(x), toks, 1, 0, args, env, d) == (
        Err::<LitV, EvalError>(EvalError::ArithmeticTypeError(ArithOp::Add)),
        3int,
    ));
}

/// A definition under the name of a variable fails with `DuplicateName`,
/// whatever follows the name, and the registry stays as it was.
pub proof fn lemma_definition_name_taken(
    name: Seq<char>,
    rest: Seq<TokenV>,
    args: Map<Seq<char>, LitV>,
    vars: Map<Seq<char>, LitV>,
    funcs: Map<Seq<char>, FnDef>,
)
    requires
        vars.contains_key(name),
    ensures
        evaluate_tokens(seq![TokenV::Fn, TokenV::Identifier(name)] + rest, args, vars, funcs) == (
            Err::<LitV, EvalError>(EvalError::DuplicateName),
            funcs,
        ),
{
    let toks = seq![TokenV::Fn, TokenV::Identifier(name)] + rest;
    assert(toks[0] == TokenV::Fn);
    assert(toks[1] == TokenV::Identifier(name));
    assert(peek(toks, 0) == TokenV::Fn);
}

/// `n` negations applied to a number term.
pub open spec fn negations(n: nat, x: NumV) -> NumV
    decreases n,
{
    if n == 0 {
        x
    } else {
        NumV::Neg(Box::new(negations((n - 1) as nat, x)))
    }
}

/// The tokens of `-(` written `n` times, a number, and `)` written `n` times.
pub open spec fn negation_chain(n: nat, x: NumV) -> Seq<TokenV> {
    Seq::new(
        3 * n + 1,
        |j: int|
            if j < 2 * n {
                if j % 2 == 0 {
                    TokenV::Hyphen
                } else {
                    TokenV::LeftBracket
                }
            } else if j == 2 * n {
                TokenV::Literal(LitV::Number(x))
            } else {
                TokenV::RightBracket
            },
    )
}

proof fn lemma_chain_from(n: nat, x: NumV, k: nat, bp: nat, args: Map<Seq<char>, LitV>, env: Env, d: nat)
    requires
        k <= n,
    ensures
        eval_expr(negation_chain(n, x), 2 * (k as int), bp, args, env, d) == (
            Ok::<LitV, EvalError>(LitV::Number(negations((n - k) as nat, x))),
            3 * n + 1 - k,
        ),
    decreases n - k,
{
    let toks = negation_chain(n, x);
    let pos: int = 3 * n + 1 - k;
    let v = LitV::Number(negations((n - k) as nat, x));
    assert(peek(toks, pos) == TokenV::End || peek(toks, pos) == TokenV::RightBracket);
    assert(eval_climb(v, toks, pos, bp, args, env, d) == (Ok::<LitV, EvalError>(v), pos));
    if k == n {
        assert(peek(toks, 2 * (k as int)) == TokenV::Literal(LitV::Number(x)));
        assert(eval_primary(toks, 2 * (k as int), args, env, d) == (Ok::<LitV, EvalError>(v), pos));
    } else {
        lemma_chain_from(n, x, k + 1, 0, args, env, d);
        let inner = LitV::Number(negations((n - k - 1) as nat, x));
        assert((2 * (k as int)) % 2 == 0);
        assert((2 * (k as int) + 1) % 2 == 1);
        assert(peek(toks, 2 * (k as int)) == TokenV::Hyphen);
        assert(peek(toks, 2 * (k as int) + 1) == TokenV::LeftBracket);
        assert(peek(toks, pos - 1) == TokenV::RightBracket);
        assert(eval_primary(toks, 2 * (k as int) + 1, args, env, d) == (Ok::<LitV, EvalError>(inner), pos));
        assert(peek(toks, pos) == TokenV::End || peek(toks, pos) == TokenV::RightBracket);
        assert(eval_climb(inner, toks, pos, 3, args, env, d) == (Ok::<LitV, EvalError>(inner), pos));
        assert(eval_expr(toks, 2 * (k as int) + 1, 3, args, env, d) == (Ok::<LitV, EvalError>(inner), pos));
        assert(negations((n - k) as nat, x) == NumV::Neg(Box::new(negations((n - k - 1) as nat, x))));
        assert(eval_primary(toks, 2 * (k as int), args, env, d) == (Ok::<LitV, EvalError>(v), pos));
    }
}

/// `-(` written `n` times, a number, and `)` written `n` times evaluate to
/// the number negated `n` times: an odd count flips its sign, an even count
/// restores it.
pub proof fn lemma_negation_chain(
    n: nat,
    x: NumV,
    args: Map<Seq<char>, LitV>,
    vars: Map<Seq<char>, LitV>,
    funcs: Map<Seq<char>, FnDef>,
)
    ensures
        evaluate_tokens(negation_chain(n, x), args, vars, funcs) == (
            Ok::<LitV, EvalError>(LitV::Number(negations(n, x))),
            funcs,
        ),
{
    let toks = negation_chain(n, x);
    lemma_chain_from(n, x, 0, 0, args, Env { vars, funcs }, MAX_CALL_DEPTH as nat);
    if n == 0 {
        assert(peek(toks, 0) == TokenV::Literal(LitV::Number(x)));
    } else {
        assert(peek(toks, 0) == TokenV::Hyphen);
    }
}

/// A failed evaluation leaves the function registry as it was.
pub proof fn lemma_failure_keeps_functions(
    toks: Seq<TokenV>,
    args: Map<Seq<char>, LitV>,
    vars: Map<Seq<char>, LitV>,
    funcs: Map<Seq<char>, FnDef>,
)
    requires
        evaluate_tokens(toks, args, vars, funcs).0 is Err,
    ensures
        evaluate_tokens(toks, args, vars, funcs).1 == funcs,
{
}

/// A definition whose body names an identifier that is not one of its
/// parameters fails with `NonLocalVariableError`, and the registry stays as
/// it was.
pub proof fn lemma_non_local_rejected(
    toks: Seq<TokenV>,
    args: Map<Seq<char>, LitV>,
    vars: Map<Seq<char>, LitV>,
    funcs: Map<Seq<char>, FnDef>,
    name: Seq<char>,
    params: Seq<Seq<char>>,
    body: Seq<TokenV>,
    stray: Seq<char>,
)
    requires
        !vars.contains_key(name),
        toks == seq![TokenV::Fn, TokenV::Identifier(name)] + params.map_values(
            |p: Seq<char>| TokenV::Identifier(p),
        ) + seq![TokenV::FnAssign] + body,
        body.contains(TokenV::Identifier(stray)),
        !params.contains(stray),
    ensures
        evaluate_tokens(toks, args, vars, funcs) == (
            Err::<LitV, EvalError>(EvalError::NonLocalVariableError),
            funcs,
        ),
{
    let n = params.len() as int;
    let a = n + 2;
    assert(toks[a] == TokenV::FnAssign);
    assert forall|j: int| 2 <= j < a implies #[trigger] toks[j] == TokenV::Identifier(params[j - 2]) by {}
    lemma_arrow_at(toks, 2, a);
    assert(toks.subrange(2, a).map_values(|t: TokenV| t->Identifier_0) =~= params);
    assert(toks.subrange(a + 1, toks.len() as int) =~= body);
    let j = choose|j: int| 0 <= j < body.len() && body[j] == TokenV::Identifier(stray);
    assert(body[j] is Identifier);
    assert(peek(toks, 0) == TokenV::Fn);
}

proof fn lemma_arrow_at(toks: Seq<TokenV>, k: int, a: int)
    requires
        0 <= k <= a < toks.len(),
        toks[a] == TokenV::FnAssign,
        forall|j: int| k <= j < a ==> (#[trigger] toks[j]) is Identifier,
    ensures
        crate::expression::arrow_index(toks, k) == Some(a),
    decreases a - k,
{
    if k < a {
        lemma_arrow_at(toks, k + 1, a);
    }
}

/// Calling a function with fewer tokens left than it has parameters fails
/// with `ArityError`.
pub proof fn lemma_too_few_arguments(
    name: Seq<char>,
    rest: Seq<TokenV>,
    args: Map<Seq<char>, LitV>,
    vars: Map<Seq<char>, LitV>,
    funcs: Map<Seq<char>, FnDef>,
)
    requires
        !args.contains_key(name),
        !vars.contains_key(name),
        funcs.contains_key(name),
        rest.len() < funcs[name].params.len(),
    ensures
        evaluate_tokens(seq![TokenV::Identifier(name)] + rest, args, vars, funcs) == (
            Err::<LitV, EvalError>(EvalError::ArityError),
            funcs,
        ),
{
    let toks = seq![TokenV::Identifier(name)] + rest;
    let env = Env { vars, funcs };
    let d = MAX_CALL_DEPTH as nat;
    assert(peek(toks, 0) == TokenV::Identifier(name));
    assert(call(funcs[name], toks, 1, args, env, d) == (
        Err::<LitV, EvalError>(EvalError::ArityError),
        1int,
    ));
    assert(eval_primary(toks, 0, args, env, d) == (
        Err::<LitV, EvalError>(EvalError::ArityError),
        1int,
    ));
}

/// Evaluating the same tokens again, against the scopes that the first
/// evaluation left, gives the same result and the same registry.
pub proof fn lemma_evaluate_again(
    toks: Seq<TokenV>,
    args: Map<Seq<char>, LitV>,
    vars: Map<Seq<char>, LitV>,
    funcs: Map<Seq<char>, FnDef>,
)
    ensures
        evaluate_tokens(toks, args, vars, evaluate_tokens(toks, args, vars, funcs).1)
            == evaluate_tokens(toks, args, vars, funcs),
{
    let f1 = evaluate_tokens(toks, args, vars, funcs).1;
    if peek(toks, 0) == TokenV::Fn {
        let (r, _) = define(toks, vars, funcs);
        if r is Ok {
            let name = toks[1]->Identifier_0;
            assert(f1.insert(name, f1[name]) =~= f1);
        }
    }
}

/// Every function of the registry names in its body only its parameters,
/// as the definition form ensures.
pub open spec fn closed_registry(funcs: Map<Seq<char>, FnDef>) -> bool {
    forall|n: Seq<char>|
        #[trigger] funcs.contains_key(n) ==> body_is_closed(funcs[n].body, funcs[n].params)
}

/// Every identifier among the tokens is bound in `args`.
pub open spec fn args_cover(toks: Seq<TokenV>, args: Map<Seq<char>, LitV>) -> bool {
    forall|j: int|
        0 <= j < toks.len() && (#[trigger] toks[j]) is Identifier ==> args.contains_key(
            toks[j]->Identifier_0,
        )
}

proof fn lemma_covered_expr(
    toks: Seq<TokenV>,
    i: int,
    bp: nat,
    args: Map<Seq<char>, LitV>,
    env: Env,
    d: nat,
)
    requires
        args_cover(toks, args),
    ensures
        eval_expr(toks, i, bp, args, env, d).0 != Err::<LitV, EvalError>(
            EvalError::CallDepthExceeded,
        ),
    decreases toks.len() - i, 2nat,
{
    lemma_covered_primary(toks, i, args, env, d);
    let (r, j) = eval_primary(toks, i, args, env, d);
    if r is Ok && i < j <= toks.len() {
        lemma_covered_climb(r->Ok_0, toks, j, bp, args, env, d);
    }
}

proof fn lemma_covered_primary(
    toks: Seq<TokenV>,
    i: int,
    args: Map<Seq<char>, LitV>,
    env: Env,
    d: nat,
)
    requires
        args_cover(toks, args),
    ensures
        eval_primary(toks, i, args, env, d).0 != Err::<LitV, EvalError>(
            EvalError::CallDepthExceeded,
        ),
    decreases toks.len() - i, 1nat,
{
    match peek(toks, i) {
        TokenV::Hyphen => lemma_covered_expr(toks, i + 1, 3, args, env, d),
        TokenV::LeftBracket => lemma_covered_expr(toks, i + 1, 0, args, env, d),
        TokenV::Identifier(name) => {
            assert(toks[i] is Identifier);
        },
        _ => {},
    }
}

proof fn lemma_covered_climb(
    lhs: LitV,
    toks: Seq<TokenV>,
    i: int,
    bp: nat,
    args: Map<Seq<char>, LitV>,
    env: Env,
    d: nat,
)
    requires
        args_cover(toks, args),
    ensures
        eval_climb(lhs, toks, i, bp, args, env, d).0 != Err::<LitV, EvalError>(
            EvalError::CallDepthExceeded,
        ),
    decreases toks.len() - i, 0nat,
{
    let t = peek(toks, i);
    match binding_power(t) {
        Some((l, rbp)) => if l >= bp {
            lemma_covered_expr(toks, i + 1, rbp, args, env, d);
            let (r, j) = eval_expr(toks, i + 1, rbp, args, env, d);
            if r is Ok {
                let v = apply_binary(t, lhs, r->Ok_0);
                if v is Ok && i < j <= toks.len() {
                    lemma_covered_climb(v->Ok_0, toks, j, bp, args, env, d);
                }
            }
        },
        None => {},
    }
}

proof fn lemma_top_expr(
    toks: Seq<TokenV>,
    i: int,
    bp: nat,
    args: Map<Seq<char>, LitV>,
    env: Env,
    d: nat,
)
    requires
        d >= 1,
        closed_registry(env.funcs),
    ensures
        eval_expr(toks, i, bp, args, env, d).0 != Err::<LitV, EvalError>(
            EvalError::CallDepthExceeded,
        ),
    decreases toks.len() - i, 5nat,
{
    lemma_top_primary(toks, i, args, env, d);
    let (r, j) = eval_primary(toks, i, args, env, d);
    if r is Ok && i < j <= toks.len() {
        lemma_top_climb(r->Ok_0, toks, j, bp, args, env, d);
    }
}

proof fn lemma_top_primary(
    toks: Seq<TokenV>,
    i: int,
    args: Map<Seq<char>, LitV>,
    env: Env,
    d: nat,
)
    requires
        d >= 1,
        closed_registry(env.funcs),
    ensures
        eval_primary(toks, i, args, env, d).0 != Err::<LitV, EvalError>(
            EvalError::CallDepthExceeded,
        ),
    decreases toks.len() - i, 4nat,
{
    match peek(toks, i) {
        TokenV::Hyphen => lemma_top_expr(toks, i + 1, 3, args, env, d),
        TokenV::LeftBracket => lemma_top_expr(toks, i + 1, 0, args, env, d),
        TokenV::Identifier(name) => lemma_top_resolve(name, toks, i + 1, args, env, d),
        _ => {},
    }
}

proof fn lemma_top_climb(
    lhs: LitV,
    toks: Seq<TokenV>,
    i: int,
    bp: nat,
    args: Map<Seq<char>, LitV>,
    env: Env,
    d: nat,
)
    requires
        d >= 1,
        closed_registry(env.funcs),
    ensures
        eval_climb(lhs, toks, i, bp, args, env, d).0 != Err::<LitV, EvalError>(
            EvalError::CallDepthExceeded,
        ),
    decreases toks.len() - i, 0nat,
{
    let t = peek(toks, i);
    match binding_power(t) {
        Some((l, rbp)) => if l >= bp {
            lemma_top_expr(toks, i + 1, rbp, args, env, d);
            let (r, j) = eval_expr(toks, i + 1, rbp, args, env, d);
            if r is Ok {
                let v = apply_binary(t, lhs, r->Ok_0);
                if v is Ok && i < j <= toks.len() {
                    lemma_top_climb(v->Ok_0, toks, j, bp, args, env, d);
                }
            }
        },
        None => {},
    }
}

proof fn lemma_top_resolve(
    name: Seq<char>,
    toks: Seq<TokenV>,
    i: int,
    args: Map<Seq<char>, LitV>,
    env: Env,
    d: nat,
)
    requires
        d >= 1,
        closed_registry(env.funcs),
    ensures
        resolve(name, toks, i, args, env, d).0 != Err::<LitV, EvalError>(
            EvalError::CallDepthExceeded,
        ),
    decreases toks.len() - i, 3nat,
{
    if !args.contains_key(name) && !env.vars.contains_key(name) && env.funcs.contains_key(name) {
        lemma_top_call(env.funcs[name], toks, i, args, env, d);
    }
}

proof fn lemma_top_call(
    f: FnDef,
    toks: Seq<TokenV>,
    i: int,
    args: Map<Seq<char>, LitV>,
    env: Env,
    d: nat,
)
    requires
        d >= 1,
        closed_registry(env.funcs),
        body_is_closed(f.body, f.params),
    ensures
        call(f, toks, i, args, env, d).0 != Err::<LitV, EvalError>(EvalError::CallDepthExceeded),
    decreases toks.len() - i, 2nat,
{
    if toks.len() - i >= f.params.len() {
        lemma_top_bind(f.params, 0, Map::empty(), toks, i, args, env, d);
        let (r, j) = bind(f.params, 0, Map::empty(), toks, i, args, env, d);
        if r is Ok {
            let bound = r->Ok_0;
            assert forall|k: int|
                0 <= k < f.body.len() && (#[trigger] f.body[k]) is Identifier implies bound.contains_key(
                f.body[k]->Identifier_0,
            ) by {
                let n = f.body[k]->Identifier_0;
                assert(f.params.contains(n));
                let p = choose|p: int| 0 <= p < f.params.len() && f.params[p] == n;
                assert(bound.contains_key(f.params[p]));
            }
            lemma_covered_expr(f.body, 0, 0, bound, env, (d - 1) as nat);
        }
    }
}

proof fn lemma_top_bind(
    params: Seq<Seq<char>>,
    k: nat,
    acc: Map<Seq<char>, LitV>,
    toks: Seq<TokenV>,
    i: int,
    args: Map<Seq<char>, LitV>,
    env: Env,
    d: nat,
)
    requires
        d >= 1,
        closed_registry(env.funcs),
    ensures
        ({
            let r = bind(params, k, acc, toks, i, args, env, d).0;
            &&& r != Err::<Map<Seq<char>, LitV>, EvalError>(EvalError::CallDepthExceeded)
            &&& r is Ok ==> forall|p: int|
                k <= p < params.len() ==> r->Ok_0.contains_key(#[trigger] params[p])
            &&& r is Ok ==> forall|n: Seq<char>|
                #[trigger] acc.contains_key(n) ==> r->Ok_0.contains_key(n)
        }),
    decreases toks.len() - i, 1nat,
{
    if k < params.len() {
        match peek(toks, i) {
            TokenV::Literal(v) => {
                let acc2 = acc.insert(params[k as int], v);
                lemma_top_bind(params, k + 1, acc2, toks, i + 1, args, env, d);
                lemma_bind_step(params, k, acc, acc2, bind(params, k + 1, acc2, toks, i + 1, args, env, d).0);
            },
            TokenV::Identifier(n) => {
                lemma_top_resolve(n, toks, i + 1, args, env, d);
                let (r, j) = resolve(n, toks, i + 1, args, env, d);
                if r is Ok && i < j <= toks.len() {
                    let acc2 = acc.insert(params[k as int], r->Ok_0);
                    lemma_top_bind(params, k + 1, acc2, toks, j, args, env, d);
                    lemma_bind_step(params, k, acc, acc2, bind(params, k + 1, acc2, toks, j, args, env, d).0);
                }
            },
            _ => {},
        }
    }
}

proof fn lemma_bind_step(
    params: Seq<Seq<char>>,
    k: nat,
    acc: Map<Seq<char>, LitV>,
    acc2: Map<Seq<char>, LitV>,
    r: Result<Map<Seq<char>, LitV>, EvalError>,
)
    requires
        k < params.len(),
        acc2 == acc.insert(params[k as int], acc2[params[k as int]]),
        r is Ok ==> forall|p: int| k + 1 <= p < params.len() ==> r->Ok_0.contains_key(#[trigger] params[p]),
        r is Ok ==> forall|n: Seq<char>| #[trigger] acc2.contains_key(n) ==> r->Ok_0.contains_key(n),
    ensures
        r is Ok ==> forall|p: int| k <= p < params.len() ==> r->Ok_0.contains_key(#[trigger] params[p]),
        r is Ok ==> forall|n: Seq<char>| #[trigger] acc.contains_key(n) ==> r->Ok_0.contains_key(n),
{
    if r is Ok {
        assert(acc2.contains_key(params[k as int]));
        assert forall|n: Seq<char>| #[trigger] acc.contains_key(n) implies r->Ok_0.contains_key(n) by {
            assert(acc2.contains_key(n));
        }
    }
}

/// Against a registry whose bodies name only their parameters, evaluation
/// never runs out of call depth: a body can make no call of its own.
pub proof fn lemma_no_depth_failure(
    toks: Seq<TokenV>,
    args: Map<Seq<char>, LitV>,
    vars: Map<Seq<char>, LitV>,
    funcs: Map<Seq<char>, FnDef>,
)
    requires
        closed_registry(funcs),
    ensures
        evaluate_tokens(toks, args, vars, funcs).0 != Err::<LitV, EvalError>(
            EvalError::CallDepthExceeded,
        ),
{
    lemma_top_expr(toks, 0, 0, args, Env { vars, funcs }, MAX_CALL_DEPTH as nat);
}

/// The definition form keeps every body of the registry naming only its
/// parameters.
pub proof fn lemma_registry_stays_closed(
    toks: Seq<TokenV>,
    args: Map<Seq<char>, LitV>,
    vars: Map<Seq<char>, LitV>,
    funcs: Map<Seq<char>, FnDef>,
)
    requires
        closed_registry(funcs),
    ensures
        closed_registry(evaluate_tokens(toks, args, vars, funcs).1),
{
}

} // verus!
