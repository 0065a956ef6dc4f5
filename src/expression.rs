use vstd::prelude::*;
use crate::literal::{
    Literal, LitV, EvalError, add_v, sub_v, mul_v, div_v, neg_v, result_view,
};
use crate::token::{Token, TokenV, view_tokens};
use crate::scope::{Scope, Function, FunctionTable, FnDef, view_names};

verus! {

/// How deeply function calls may nest before evaluation gives up.
pub const MAX_CALL_DEPTH: u64 = 64;

/// The scopes that stay fixed while an expression is evaluated.
pub struct Env {
    pub vars: Map<Seq<char>, LitV>,
    pub funcs: Map<Seq<char>, FnDef>,
}

/// The token at position `i`, or `End` past the last one.
pub open spec fn peek(toks: Seq<TokenV>, i: int) -> TokenV {
    if 0 <= i < toks.len() {
        toks[i]
    } else {
        TokenV::End
    }
}

/// The position after consuming the token at `i`, if there is one.
pub open spec fn advance(toks: Seq<TokenV>, i: int) -> int {
    if 0 <= i < toks.len() {
        i + 1
    } else {
        i
    }
}

/// Left and right binding power of a binary operator; the right one is the
/// higher, so that operators of one level group to the left.
pub open spec fn binding_power(t: TokenV) -> Option<(nat, nat)> {
    match t {
        TokenV::Multiply => Some((2, 3)),
        TokenV::Divide => Some((2, 3)),
        TokenV::Add => Some((1, 2)),
        TokenV::Hyphen => Some((1, 2)),
        _ => None,
    }
}

pub open spec fn apply_binary(t: TokenV, a: LitV, b: LitV) -> Result<LitV, EvalError> {
    match t {
        TokenV::Multiply => mul_v(a, b),
        TokenV::Divide => div_v(a, b),
        TokenV::Add => add_v(a, b),
        _ => sub_v(a, b),
    }
}

/// An expression starting at `i` whose operators bind at least `min_bp`:
/// its value and the position after it.
pub open spec fn eval_expr(
    toks: Seq<TokenV>,
    i: int,
    min_bp: nat,
    args: Map<Seq<char>, LitV>,
    env: Env,
    d: nat,
) -> (Result<LitV, EvalError>, int)
    decreases d, toks.len() - i, 4nat,
{
    let (r, j) = eval_primary(toks, i, args, env, d);
    match r {
        Err(e) => (Err(e), j),
        Ok(lhs) => if i < j <= toks.len() {
            eval_climb(lhs, toks, j, min_bp, args, env, d)
        } else {
            (Ok(lhs), j)
        },
    }
}

/// The operand that starts at `i`.
pub open spec fn eval_primary(
    toks: Seq<TokenV>,
    i: int,
    args: Map<Seq<char>, LitV>,
    env: Env,
    d: nat,
) -> (Result<LitV, EvalError>, int)
    decreases d, toks.len() - i, 3nat,
{
    match peek(toks, i) {
        TokenV::Literal(v) => (Ok(v), i + 1),
        TokenV::Identifier(name) => resolve(name, toks, i + 1, args, env, d),
        TokenV::Hyphen => {
            let (r, j) = eval_expr(toks, i + 1, 3, args, env, d);
            match r {
                Err(e) => (Err(e), j),
                Ok(v) => (neg_v(v), j),
            }
        },
        TokenV::LeftBracket => {
            let (r, j) = eval_expr(toks, i + 1, 0, args, env, d);
            match r {
                Err(e) => (Err(e), j),
                Ok(v) => if peek(toks, j) == TokenV::RightBracket {
                    (Ok(v), j + 1)
                } else {
                    (Err(EvalError::UnmatchedBracket), advance(toks, j))
                },
            }
        },
        _ => (Err(EvalError::UnexpectedToken), advance(toks, i)),
    }
}

/// Folds binary operators into `lhs` while they bind at least `min_bp`.
pub open spec fn eval_climb(
    lhs: LitV,
    toks: Seq<TokenV>,
    i: int,
    min_bp: nat,
    args: Map<Seq<char>, LitV>,
    env: Env,
    d: nat,
) -> (Result<LitV, EvalError>, int)
    decreases d, toks.len() - i, 0nat,
{
    let t = peek(toks, i);
    match binding_power(t) {
        None => if t == TokenV::End || t == TokenV::RightBracket {
            (Ok(lhs), i)
        } else {
            (Err(EvalError::UnexpectedToken), i)
        },
        Some((l, rbp)) => if l < min_bp {
            (Ok(lhs), i)
        } else {
            let (r, j) = eval_expr(toks, i + 1, rbp, args, env, d);
            match r {
                Err(e) => (Err(e), j),
                Ok(rhs) => match apply_binary(t, lhs, rhs) {
                    Err(e) => (Err(e), j),
                    Ok(v) => if i < j <= toks.len() {
                        eval_climb(v, toks, j, min_bp, args, env, d)
                    } else {
                        (Ok(v), j)
                    },
                },
            }
        },
    }
}

/// The value of an identifier whose call arguments, if any, start at `i`:
/// an argument, else a variable, else a call of a function.
pub open spec fn resolve(
    name: Seq<char>,
    toks: Seq<TokenV>,
    i: int,
    args: Map<Seq<char>, LitV>,
    env: Env,
    d: nat,
) -> (Result<LitV, EvalError>, int)
    decreases d, toks.len() - i, 2nat,
{
    if args.contains_key(name) {
        (Ok(args[name]), i)
    } else if env.vars.contains_key(name) {
        (Ok(env.vars[name]), i)
    } else if env.funcs.contains_key(name) {
        call(env.funcs[name], toks, i, args, env, d)
    } else {
        (Err(EvalError::UnknownIdentifier), i)
    }
}

/// A call of `f` with its arguments starting at `i`: the body is evaluated
/// on a scope of its own that binds the parameters.
pub open spec fn call(
    f: FnDef,
    toks: Seq<TokenV>,
    i: int,
    args: Map<Seq<char>, LitV>,
    env: Env,
    d: nat,
) -> (Result<LitV, EvalError>, int)
    decreases d, toks.len() - i, 1nat,
{
    if d == 0 {
        (Err(EvalError::CallDepthExceeded), i)
    } else if toks.len() - i < f.params.len() {
        (Err(EvalError::ArityError), i)
    } else {
        let (r, j) = bind(f.params, 0, Map::empty(), toks, i, args, env, d);
        match r {
            Err(e) => (Err(e), j),
            Ok(bound) => (eval_expr(f.body, 0, 0, bound, env, (d - 1) as nat).0, j),
        }
    }
}

/// Binds `params[k..]` in turn to the arguments that start at `i`: a literal
/// is taken as it is, an identifier is resolved.
pub open spec fn bind(
    params: Seq<Seq<char>>,
    k: nat,
    acc: Map<Seq<char>, LitV>,
    toks: Seq<TokenV>,
    i: int,
    args: Map<Seq<char>, LitV>,
    env: Env,
    d: nat,
) -> (Result<Map<Seq<char>, LitV>, EvalError>, int)
    decreases d, toks.len() - i, 0nat,
{
    if k >= params.len() {
        (Ok(acc), i)
    } else {
        match peek(toks, i) {
            TokenV::Literal(v) => bind(params, k + 1, acc.insert(params[k as int], v), toks, i + 1, args, env, d),
            TokenV::Identifier(n) => {
                let (r, j) = resolve(n, toks, i + 1, args, env, d);
                match r {
                    Err(e) => (Err(e), j),
                    Ok(v) => if i < j <= toks.len() {
                        bind(params, k + 1, acc.insert(params[k as int], v), toks, j, args, env, d)
                    } else {
                        (Err(EvalError::InvalidArgument), j)
                    },
                }
            },
            _ => (Err(EvalError::InvalidArgument), advance(toks, i)),
        }
    }
}

/// Where the `=>` of a definition stands, when every token from `k` up to
/// it is a parameter name.
pub open spec fn arrow_index(toks: Seq<TokenV>, k: int) -> Option<int>
    decreases toks.len() - k,
{
    if k < 0 || k >= toks.len() {
        None
    } else {
        match toks[k] {
            TokenV::FnAssign => Some(k),
            TokenV::Identifier(_) => arrow_index(toks, k + 1),
            _ => None,
        }
    }
}

pub open spec fn param_names(ts: Seq<TokenV>) -> Seq<Seq<char>> {
    ts.map_values(|t: TokenV| t->Identifier_0)
}

/// Every identifier of the body is one of the parameters.
pub open spec fn body_is_closed(body: Seq<TokenV>, params: Seq<Seq<char>>) -> bool {
    forall|j: int|
        0 <= j < body.len() && (#[trigger] body[j]) is Identifier ==> params.contains(
            body[j]->Identifier_0,
        )
}

/// The definition form `fn name params => body`: its result and the
/// function registry after it.
pub open spec fn define(
    toks: Seq<TokenV>,
    vars: Map<Seq<char>, LitV>,
    funcs: Map<Seq<char>, FnDef>,
) -> (Result<LitV, EvalError>, Map<Seq<char>, FnDef>) {
    if toks.len() < 2 {
        (Err(EvalError::MalformedFunctionDefinition), funcs)
    } else {
        match toks[1] {
            TokenV::Identifier(name) => if vars.contains_key(name) {
                (Err(EvalError::DuplicateName), funcs)
            } else {
                match arrow_index(toks, 2) {
                    None => (Err(EvalError::MalformedFunctionDefinition), funcs),
                    Some(a) => {
                        let params = param_names(toks.subrange(2, a));
                        let body = toks.subrange(a + 1, toks.len() as int);
                        if body_is_closed(body, params) {
                            (Ok(LitV::Unit), funcs.insert(name, FnDef { params, body }))
                        } else {
                            (Err(EvalError::NonLocalVariableError), funcs)
                        }
                    },
                }
            },
            _ => (Err(EvalError::MalformedFunctionDefinition), funcs),
        }
    }
}

/// A whole token sequence: an expression, or a function definition.
/// The result and the function registry after it.
pub open spec fn evaluate_tokens(
    toks: Seq<TokenV>,
    args: Map<Seq<char>, LitV>,
    vars: Map<Seq<char>, LitV>,
    funcs: Map<Seq<char>, FnDef>,
) -> (Result<LitV, EvalError>, Map<Seq<char>, FnDef>) {
    match peek(toks, 0) {
        TokenV::Literal(_) | TokenV::Hyphen | TokenV::Identifier(_) | TokenV::LeftBracket => (
            eval_expr(toks, 0, 0, args, Env { vars, funcs }, MAX_CALL_DEPTH as nat).0,
            funcs,
        ),
        TokenV::Fn => define(toks, vars, funcs),
        _ => (Err(EvalError::InvalidExpression), funcs),
    }
}

proof fn lemma_arrow_index(toks: Seq<TokenV>, k: int, a: int)
    requires
        arrow_index(toks, k) == Some(a),
    ensures
        k <= a < toks.len(),
        toks[a] is FnAssign,
        forall|j: int| k <= j < a ==> (#[trigger] toks[j]) is Identifier,
    decreases toks.len() - k,
{
    if !(toks[k] is FnAssign) {
        lemma_arrow_index(toks, k + 1, a);
    }
}

fn find_arrow(toks: &Vec<Token>, k: usize) -> (r: Option<usize>)
    requires
        k <= toks@.len(),
    ensures
        match r {
            Some(a) => arrow_index(view_tokens(toks@), k as int) == Some(a as int),
            None => arrow_index(view_tokens(toks@), k as int) is None,
        },
    decreases toks@.len() - k,
{
    if k >= toks.len() {
        return None;
    }
    match &toks[k] {
        Token::FnAssign => Some(k),
        Token::Identifier(_) => find_arrow(toks, k + 1),
        _ => None,
    }
}

fn contains_name(params: &Vec<String>, n: &String) -> (r: bool)
    ensures
        r == view_names(params@).contains(n@),
{
    let ghost ps = view_names(params@);
    let mut k: usize = 0;
    while k < params.len()
        invariant
            k <= params@.len(),
            ps == view_names(params@),
            forall|j: int| 0 <= j < k ==> ps[j] != n@,
        decreases params@.len() - k,
    {
        if params[k] == *n {
            assert(ps[k as int] == n@);
            return true;
        }
        k = k + 1;
    }
    false
}

fn is_closed(body: &Vec<Token>, params: &Vec<String>) -> (r: bool)
    ensures
        r == body_is_closed(view_tokens(body@), view_names(params@)),
{
    let ghost bs = view_tokens(body@);
    let mut k: usize = 0;
    while k < body.len()
        invariant
            k <= body@.len(),
            bs == view_tokens(body@),
            forall|j: int|
                0 <= j < k && (#[trigger] bs[j]) is Identifier ==> view_names(params@).contains(
                    bs[j]->Identifier_0,
                ),
        decreases body@.len() - k,
    {
        match &body[k] {
            Token::Identifier(n) => {
                if !contains_name(params, n) {
                    assert(bs[k as int] is Identifier);
                    return false;
                }
            },
            _ => {},
        }
        k = k + 1;
    }
    true
}

fn define_function(toks: &Vec<Token>, vars: &Scope, funcs: &mut FunctionTable) -> (r: Result<
    Literal,
    EvalError,
>)
    ensures
        (result_view(r), final(funcs)@) == define(view_tokens(toks@), vars@, old(funcs)@),
{
    let ghost ts = view_tokens(toks@);
    if toks.len() < 2 {
        return Err(EvalError::MalformedFunctionDefinition);
    }
    let name = match &toks[1] {
        Token::Identifier(n) => n,
        _ => {
            return Err(EvalError::MalformedFunctionDefinition);
        },
    };
    if vars.get(name).is_some() {
        return Err(EvalError::DuplicateName);
    }
    let a = match find_arrow(toks, 2) {
        Some(a) => a,
        None => {
            return Err(EvalError::MalformedFunctionDefinition);
        },
    };
    proof {
        lemma_arrow_index(ts, 2, a as int);
    }
    let mut params: Vec<String> = Vec::new();
    let mut k: usize = 2;
    while k < a
        invariant
            2 <= k <= a < toks@.len(),
            ts == view_tokens(toks@),
            forall|j: int| 2 <= j < a ==> (#[trigger] ts[j]) is Identifier,
            view_names(params@) == param_names(ts.subrange(2, k as int)),
        decreases a - k,
    {
        match &toks[k] {
            Token::Identifier(p) => {
                let ghost before = params@;
                params.push(p.clone());
                assert(ts[k as int] == toks@[k as int]@);
                assert(ts.subrange(2, k + 1) =~= ts.subrange(2, k as int).push(ts[k as int]));
                assert(view_names(params@) =~= view_names(before).push(p@));
            },
            _ => {
                assert(ts[k as int] is Identifier);
            },
        }
        assert(view_names(params@) =~= param_names(ts.subrange(2, k + 1)));
        k = k + 1;
    }
    let mut body: Vec<Token> = Vec::new();
    let mut m: usize = a + 1;
    while m < toks.len()
        invariant
            a + 1 <= m <= toks@.len(),
            ts == view_tokens(toks@),
            view_tokens(body@) == ts.subrange(a + 1, m as int),
        decreases toks@.len() - m,
    {
        let t = toks[m].duplicate();
        let ghost before = body@;
        assert(ts[m as int] == toks@[m as int]@);
        assert(ts.subrange(a + 1, m + 1) =~= ts.subrange(a + 1, m as int).push(ts[m as int]));
        body.push(t);
        assert(view_tokens(body@) =~= view_tokens(before).push(ts[m as int]));
        assert(view_tokens(body@) =~= ts.subrange(a + 1, m + 1));
        m = m + 1;
    }
    if !is_closed(&body, &params) {
        return Err(EvalError::NonLocalVariableError);
    }
    funcs.insert(name.clone(), Function { params, body });
    Ok(Literal::Unit)
}

pub open spec fn env_of(vars: &Scope, funcs: &FunctionTable) -> Env {
    Env { vars: vars@, funcs: funcs@ }
}

pub open spec fn scope_result_view(r: Result<Scope, EvalError>) -> Result<Map<Seq<char>, LitV>, EvalError> {
    match r {
        Ok(s) => Ok(s@),
        Err(e) => Err(e),
    }
}

fn expr(
    toks: &Vec<Token>,
    i: usize,
    min_bp: u64,
    args: &Scope,
    vars: &Scope,
    funcs: &FunctionTable,
    d: u64,
) -> (r: (Result<Literal, EvalError>, usize))
    requires
        i <= toks@.len(),
    ensures
        (result_view(r.0), r.1 as int) == eval_expr(
            view_tokens(toks@),
            i as int,
            min_bp as nat,
            args@,
            env_of(vars, funcs),
            d as nat,
        ),
        i <= r.1 <= toks@.len(),
        r.0 is Ok ==> i < r.1,
    decreases d, toks@.len() - i, 4nat,
{
    let (r, j) = primary(toks, i, args, vars, funcs, d);
    match r {
        Err(e) => (Err(e), j),
        Ok(lhs) => climb(lhs, toks, j, min_bp, args, vars, funcs, d),
    }
}

fn primary(
    toks: &Vec<Token>,
    i: usize,
    args: &Scope,
    vars: &Scope,
    funcs: &FunctionTable,
    d: u64,
) -> (r: (Result<Literal, EvalError>, usize))
    requires
        i <= toks@.len(),
    ensures
        (result_view(r.0), r.1 as int) == eval_primary(
            view_tokens(toks@),
            i as int,
            args@,
            env_of(vars, funcs),
            d as nat,
        ),
        i <= r.1 <= toks@.len(),
        r.0 is Ok ==> i < r.1,
    decreases d, toks@.len() - i, 3nat,
{
    if i >= toks.len() {
        return (Err(EvalError::UnexpectedToken), i);
    }
    match &toks[i] {
        Token::Literal(v) => (Ok(v.duplicate()), i + 1),
        Token::Identifier(name) => resolve_name(name, toks, i + 1, args, vars, funcs, d),
        Token::Hyphen => {
            let (r, j) = expr(toks, i + 1, 3, args, vars, funcs, d);
            match r {
                Err(e) => (Err(e), j),
                Ok(v) => (v.neg(), j),
            }
        },
        Token::LeftBracket => {
            let (r, j) = expr(toks, i + 1, 0, args, vars, funcs, d);
            match r {
                Err(e) => (Err(e), j),
                Ok(v) => {
                    if j < toks.len() && matches!(toks[j], Token::RightBracket) {
                        (Ok(v), j + 1)
                    } else if j < toks.len() {
                        (Err(EvalError::UnmatchedBracket), j + 1)
                    } else {
                        (Err(EvalError::UnmatchedBracket), j)
                    }
                },
            }
        },
        _ => (Err(EvalError::UnexpectedToken), i + 1),
    }
}

fn climb(
    lhs: Literal,
    toks: &Vec<Token>,
    i: usize,
    min_bp: u64,
    args: &Scope,
    vars: &Scope,
    funcs: &FunctionTable,
    d: u64,
) -> (r: (Result<Literal, EvalError>, usize))
    requires
        i <= toks@.len(),
    ensures
        (result_view(r.0), r.1 as int) == eval_climb(
            lhs@,
            view_tokens(toks@),
            i as int,
            min_bp as nat,
            args@,
            env_of(vars, funcs),
            d as nat,
        ),
        i <= r.1 <= toks@.len(),
    decreases d, toks@.len() - i, 0nat,
{
    if i >= toks.len() {
        return (Ok(lhs), i);
    }
    let (l, rbp): (u64, u64) = match &toks[i] {
        Token::Multiply => (2, 3),
        Token::Divide => (2, 3),
        Token::Add => (1, 2),
        Token::Hyphen => (1, 2),
        Token::End => {
            return (Ok(lhs), i);
        },
        Token::RightBracket => {
            return (Ok(lhs), i);
        },
        _ => {
            return (Err(EvalError::UnexpectedToken), i);
        },
    };
    if l < min_bp {
        return (Ok(lhs), i);
    }
    let (r, j) = expr(toks, i + 1, rbp, args, vars, funcs, d);
    match r {
        Err(e) => (Err(e), j),
        Ok(rhs) => {
            let applied = match &toks[i] {
                Token::Multiply => lhs.mul(rhs),
                Token::Divide => lhs.div(rhs),
                Token::Add => lhs.add(rhs),
                _ => lhs.sub(rhs),
            };
            match applied {
                Err(e) => (Err(e), j),
                Ok(v) => climb(v, toks, j, min_bp, args, vars, funcs, d),
            }
        },
    }
}

fn resolve_name(
    name: &String,
    toks: &Vec<Token>,
    i: usize,
    args: &Scope,
    vars: &Scope,
    funcs: &FunctionTable,
    d: u64,
) -> (r: (Result<Literal, EvalError>, usize))
    requires
        i <= toks@.len(),
    ensures
        (result_view(r.0), r.1 as int) == resolve(
            name@,
            view_tokens(toks@),
            i as int,
            args@,
            env_of(vars, funcs),
            d as nat,
        ),
        i <= r.1 <= toks@.len(),
    decreases d, toks@.len() - i, 2nat,
{
    match args.get(name) {
        Some(v) => {
            return (Ok(v.duplicate()), i);
        },
        None => {},
    }
    match vars.get(name) {
        Some(v) => {
            return (Ok(v.duplicate()), i);
        },
        None => {},
    }
    match funcs.get(name) {
        Some(f) => call_function(f, toks, i, args, vars, funcs, d),
        None => (Err(EvalError::UnknownIdentifier), i),
    }
}

fn call_function(
    f: &Function,
    toks: &Vec<Token>,
    i: usize,
    args: &Scope,
    vars: &Scope,
    funcs: &FunctionTable,
    d: u64,
) -> (r: (Result<Literal, EvalError>, usize))
    requires
        i <= toks@.len(),
    ensures
        (result_view(r.0), r.1 as int) == call(
            f@,
            view_tokens(toks@),
            i as int,
            args@,
            env_of(vars, funcs),
            d as nat,
        ),
        i <= r.1 <= toks@.len(),
    decreases d, toks@.len() - i, 1nat,
{
    if d == 0 {
        return (Err(EvalError::CallDepthExceeded), i);
    }
    if toks.len() - i < f.params.len() {
        return (Err(EvalError::ArityError), i);
    }
    let (r, j) = bind_arguments(&f.params, toks, i, args, vars, funcs, d);
    match r {
        Err(e) => (Err(e), j),
        Ok(bound) => {
            let (v, _) = expr(&f.body, 0, 0, &bound, vars, funcs, d - 1);
            (v, j)
        },
    }
}

fn bind_arguments(
    params: &Vec<String>,
    toks: &Vec<Token>,
    i: usize,
    args: &Scope,
    vars: &Scope,
    funcs: &FunctionTable,
    d: u64,
) -> (r: (Result<Scope, EvalError>, usize))
    requires
        i <= toks@.len(),
    ensures
        (scope_result_view(r.0), r.1 as int) == bind(
            view_names(params@),
            0,
            Map::empty(),
            view_tokens(toks@),
            i as int,
            args@,
            env_of(vars, funcs),
            d as nat,
        ),
        i <= r.1 <= toks@.len(),
    decreases d, toks@.len() - i, 0nat,
{
    let ghost ps = view_names(params@);
    let ghost ts = view_tokens(toks@);
    let ghost env = env_of(vars, funcs);
    let mut acc = Scope::new();
    let mut k: usize = 0;
    let mut pos = i;
    while k < params.len()
        invariant
            i <= pos <= toks@.len(),
            k <= params@.len(),
            ps == view_names(params@),
            ts == view_tokens(toks@),
            env == env_of(vars, funcs),
            bind(ps, 0, Map::empty(), ts, i as int, args@, env, d as nat) == bind(
                ps,
                k as nat,
                acc@,
                ts,
                pos as int,
                args@,
                env,
                d as nat,
            ),
        decreases params@.len() - k,
    {
        if pos >= toks.len() {
            return (Err(EvalError::InvalidArgument), pos);
        }
        match &toks[pos] {
            Token::Literal(v) => {
                acc.insert(params[k].clone(), v.duplicate());
                pos = pos + 1;
            },
            Token::Identifier(n) => {
                let (r, j) = resolve_name(n, toks, pos + 1, args, vars, funcs, d);
                match r {
                    Err(e) => {
                        return (Err(e), j);
                    },
                    Ok(v) => {
                        acc.insert(params[k].clone(), v);
                        pos = j;
                    },
                }
            },
            _ => {
                return (Err(EvalError::InvalidArgument), pos + 1);
            },
        }
        k = k + 1;
    }
    (Ok(acc), pos)
}

/// Evaluates `toks` against the three scopes: an expression gives its value;
/// a definition `fn name params => body` records the function and gives Unit.
pub fn evaluate(
    toks: &Vec<Token>,
    variables: &Scope,
    arguments: &Scope,
    functions: &mut FunctionTable,
) -> (r: Result<Literal, EvalError>)
    ensures
        (result_view(r), final(functions)@) == evaluate_tokens(
            view_tokens(toks@),
            arguments@,
            variables@,
            old(functions)@,
        ),
{
    if toks.len() == 0 {
        return Err(EvalError::InvalidExpression);
    }
    match &toks[0] {
        Token::Literal(_) | Token::Hyphen | Token::Identifier(_) | Token::LeftBracket => {
            let (r, _) = expr(toks, 0, 0, arguments, variables, functions, MAX_CALL_DEPTH);
            r
        },
        Token::Fn => define_function(toks, variables, functions),
        _ => Err(EvalError::InvalidExpression),
    }
}

/// A token sequence together with the scopes it is evaluated against.
pub struct Expression {
    pub tokens: Vec<Token>,
    pub variables: Scope,
    pub arguments: Scope,
    pub functions: FunctionTable,
}

impl Expression {
    /// Puts the tokens and the three scopes together.
    pub fn from_tokens(
        tokens: Vec<Token>,
        variables: Scope,
        arguments: Scope,
        functions: FunctionTable,
    ) -> (r: Expression)
        ensures
            r.tokens@ == tokens@,
            r.variables@ == variables@,
            r.arguments@ == arguments@,
            r.functions@ == functions@,
    {
        Expression { tokens, variables, arguments, functions }
    }
}

/// Evaluates the expression's tokens against its scopes; a definition
/// updates its function registry.
pub fn evaluate_expression(expression: &mut Expression) -> (r: Result<Literal, EvalError>)
    ensures
        (result_view(r), final(expression).functions@) == evaluate_tokens(
            view_tokens(old(expression).tokens@),
            old(expression).arguments@,
            old(expression).variables@,
            old(expression).functions@,
        ),
        final(expression).tokens@ == old(expression).tokens@,
        final(expression).variables@ == old(expression).variables@,
        final(expression).arguments@ == old(expression).arguments@,
{
    evaluate(&expression.tokens, &expression.variables, &expression.arguments, &mut expression.functions)
}

} // verus!
