use vstd::prelude::*;
use crate::literal::{Literal, LitV, NumV, Num, lit_wf};

verus! {

/// A lexical unit of the language.
#[derive(Debug, PartialEq)]
pub enum Token {
    Literal(Literal),
    Identifier(String),
    Fn,
    FnAssign,
    LeftBracket,
    RightBracket,
    Add,
    Hyphen,
    Multiply,
    Divide,
    Remainder,
    Equals,
    End,
}

/// Mathematical model of a `Token`.
pub enum TokenV {
    Literal(LitV),
    Identifier(Seq<char>),
    Fn,
    FnAssign,
    LeftBracket,
    RightBracket,
    Add,
    Hyphen,
    Multiply,
    Divide,
    Remainder,
    Equals,
    End,
}

impl View for Token {
    type V = TokenV;

    open spec fn view(&self) -> TokenV {
        match self {
            Token::Literal(l) => TokenV::Literal(l@),
            Token::Identifier(s) => TokenV::Identifier(s@),
            Token::Fn => TokenV::Fn,
            Token::FnAssign => TokenV::FnAssign,
            Token::LeftBracket => TokenV::LeftBracket,
            Token::RightBracket => TokenV::RightBracket,
            Token::Add => TokenV::Add,
            Token::Hyphen => TokenV::Hyphen,
            Token::Multiply => TokenV::Multiply,
            Token::Divide => TokenV::Divide,
            Token::Remainder => TokenV::Remainder,
            Token::Equals => TokenV::Equals,
            Token::End => TokenV::End,
        }
    }
}

impl Token {
    /// A copy with the same model.
    pub fn duplicate(&self) -> (r: Token)
        ensures
            r@ == self@,
    {
        match self {
            Token::Literal(l) => Token::Literal(l.duplicate()),
            Token::Identifier(s) => Token::Identifier(s.clone()),
            Token::Fn => Token::Fn,
            Token::FnAssign => Token::FnAssign,
            Token::LeftBracket => Token::LeftBracket,
            Token::RightBracket => Token::RightBracket,
            Token::Add => Token::Add,
            Token::Hyphen => Token::Hyphen,
            Token::Multiply => Token::Multiply,
            Token::Divide => Token::Divide,
            Token::Remainder => Token::Remainder,
            Token::Equals => Token::Equals,
            Token::End => Token::End,
        }
    }
}

/// The models of a sequence of tokens.
pub open spec fn view_tokens(s: Seq<Token>) -> Seq<TokenV> {
    s.map_values(|t: Token| t@)
}

/// What went wrong while reading the text.
#[derive(Clone, Copy, Debug, PartialEq, Eq, Structural)]
pub enum LexErrorKind {
    MalformedNumber,
    UnterminatedString,
    UnexpectedCharacter,
    MalformedArrow,
}

/// A lexical fault and the character offset at which it was found.
#[derive(Clone, Copy, Debug, PartialEq, Eq, Structural)]
pub struct LexError {
    pub kind: LexErrorKind,
    pub offset: usize,
}

pub open spec fn lex_error(kind: LexErrorKind, i: int) -> LexError {
    LexError { kind, offset: i as usize }
}

/// White space as Unicode's White_Space property defines it.
pub open spec fn is_space(c: char) -> bool {
    let u = c as u32;
    (9 <= u <= 13) || u == 32 || u == 0x85 || u == 0xa0 || u == 0x1680 || (0x2000 <= u <= 0x200a)
        || u == 0x2028 || u == 0x2029 || u == 0x202f || u == 0x205f || u == 0x3000
}

/// ASCII letters and the underscore make up words.
pub open spec fn is_word_char(c: char) -> bool {
    ('a' <= c && c <= 'z') || ('A' <= c && c <= 'Z') || c == '_'
}

/// ASCII digits and the dot make up numbers.
pub open spec fn is_number_char(c: char) -> bool {
    ('0' <= c && c <= '9') || c == '.'
}

pub open spec fn dot_count(s: Seq<char>) -> nat
    decreases s.len(),
{
    if s.len() == 0 {
        0
    } else {
        dot_count(s.drop_last()) + if s.last() == '.' { 1nat } else { 0nat }
    }
}

/// A run of digits and dots reads as a number when it holds at most one dot
/// and at least one digit.
pub open spec fn number_text(s: Seq<char>) -> bool {
    dot_count(s) <= 1 && dot_count(s) < s.len()
}

/// Every character of `s` belongs to a number.
pub open spec fn number_chars(s: Seq<char>) -> bool {
    forall|j: int| 0 <= j < s.len() ==> is_number_char(#[trigger] s[j])
}

/// Number literals that read as numbers, in every token.
pub open spec fn token_wf(t: TokenV) -> bool {
    match t {
        TokenV::Literal(l) => lit_wf(l),
        _ => true,
    }
}

pub open spec fn tokens_wf(ts: Seq<TokenV>) -> bool {
    forall|j: int| 0 <= j < ts.len() ==> token_wf(#[trigger] ts[j])
}

/// The token that a pending number run becomes, offset `i` being where it ended.
pub open spec fn flush_number(toks: Seq<TokenV>, num: Seq<char>, i: int) -> Result<Seq<TokenV>, LexError> {
    if num.len() == 0 {
        Ok(toks)
    } else if number_text(num) {
        Ok(toks.push(TokenV::Literal(LitV::Number(NumV::Lit(num)))))
    } else {
        Err(lex_error(LexErrorKind::MalformedNumber, i))
    }
}

/// The token that a pending word becomes: the keyword `fn`, else a text
/// inside quotes, else an identifier.
pub open spec fn word_token(w: Seq<char>, in_string: bool) -> TokenV {
    if w == seq!['f', 'n'] {
        TokenV::Fn
    } else if in_string {
        TokenV::Literal(LitV::Text(w))
    } else {
        TokenV::Identifier(w)
    }
}

pub open spec fn flush_word(toks: Seq<TokenV>, w: Seq<char>, in_string: bool) -> Seq<TokenV> {
    if w.len() == 0 {
        toks
    } else {
        toks.push(word_token(w, in_string))
    }
}

/// What a character outside words, numbers and quotes does to the tokens.
pub open spec fn operator(toks: Seq<TokenV>, c: char, i: int) -> Result<Seq<TokenV>, LexError> {
    if is_space(c) {
        Ok(toks)
    } else if c == '>' {
        if toks.len() > 0 && toks.last() == TokenV::Equals {
            Ok(toks.drop_last().push(TokenV::FnAssign))
        } else {
            Err(lex_error(LexErrorKind::MalformedArrow, i))
        }
    } else if c == ')' {
        if toks.len() > 0 && toks.last() == TokenV::LeftBracket {
            Ok(toks.drop_last().push(TokenV::Literal(LitV::Unit)))
        } else {
            Ok(toks.push(TokenV::RightBracket))
        }
    } else if c == '=' {
        Ok(toks.push(TokenV::Equals))
    } else if c == '+' {
        Ok(toks.push(TokenV::Add))
    } else if c == '-' {
        Ok(toks.push(TokenV::Hyphen))
    } else if c == '*' {
        Ok(toks.push(TokenV::Multiply))
    } else if c == '/' {
        Ok(toks.push(TokenV::Divide))
    } else if c == '%' {
        Ok(toks.push(TokenV::Remainder))
    } else if c == '(' {
        Ok(toks.push(TokenV::LeftBracket))
    } else {
        Err(lex_error(LexErrorKind::UnexpectedCharacter, i))
    }
}

/// The tokenizer's state between two characters.
pub struct LexState {
    pub tokens: Seq<TokenV>,
    pub in_string: bool,
    pub num: Seq<char>,
    pub word: Seq<char>,
    pub err: Option<LexError>,
}

pub open spec fn lex_start() -> LexState {
    LexState { tokens: Seq::empty(), in_string: false, num: Seq::empty(), word: Seq::empty(), err: None }
}

/// One character `c`, at offset `i`.
pub open spec fn lex_step(st: LexState, c: char, i: int) -> LexState {
    if st.err is Some {
        st
    } else if c == '"' {
        LexState {
            tokens: flush_word(st.tokens, st.word, st.in_string),
            in_string: !st.in_string,
            word: Seq::empty(),
            ..st
        }
    } else if st.in_string || is_word_char(c) {
        LexState { word: st.word.push(c), ..st }
    } else if is_number_char(c) {
        LexState { num: st.num.push(c), ..st }
    } else {
        match flush_number(st.tokens, st.num, i) {
            Err(e) => LexState { err: Some(e), ..st },
            Ok(t1) => {
                let t2 = flush_word(t1, st.word, false);
                match operator(t2, c, i) {
                    Err(e) => LexState { err: Some(e), ..st },
                    Ok(t3) => LexState { tokens: t3, num: Seq::empty(), word: Seq::empty(), ..st },
                }
            },
        }
    }
}

/// The state after the first `k` characters of `cs`.
pub open spec fn lex_upto(cs: Seq<char>, k: nat) -> LexState
    decreases k,
{
    if k == 0 || k > cs.len() {
        lex_start()
    } else {
        lex_step(lex_upto(cs, (k - 1) as nat), cs[k - 1], k - 1)
    }
}

/// The tokens of a text, in reading order, or the first lexical fault.
pub open spec fn lex(cs: Seq<char>) -> Result<Seq<TokenV>, LexError> {
    let st = lex_upto(cs, cs.len());
    if st.err is Some {
        Err(st.err->Some_0)
    } else if st.in_string {
        Err(lex_error(LexErrorKind::UnterminatedString, cs.len() as int))
    } else {
        match flush_number(st.tokens, st.num, cs.len() as int) {
            Err(e) => Err(e),
            Ok(t) => Ok(flush_word(t, st.word, false)),
        }
    }
}

proof fn lemma_lex_wf(cs: Seq<char>, k: nat)
    ensures
        tokens_wf(lex_upto(cs, k).tokens),
        number_chars(lex_upto(cs, k).num),
    decreases k,
{
    if k > 0 && k <= cs.len() {
        lemma_lex_wf(cs, (k - 1) as nat);
        let st = lex_upto(cs, (k - 1) as nat);
        let c = cs[k - 1];
        let i = k - 1;
        if st.err is None && c != '"' && !(st.in_string || is_word_char(c)) && !is_number_char(c) {
            if let Ok(t1) = flush_number(st.tokens, st.num, i) {
                assert(tokens_wf(t1));
                let t2 = flush_word(t1, st.word, false);
                assert(tokens_wf(t2));
                if let Ok(t3) = operator(t2, c, i) {
                    assert(tokens_wf(t3));
                }
            }
        } else if st.err is None && c == '"' {
            assert(tokens_wf(flush_word(st.tokens, st.word, st.in_string)));
        } else if st.err is None && !(st.in_string || is_word_char(c)) && is_number_char(c) {
            assert(number_chars(st.num.push(c)));
        }
    }
}

proof fn lemma_error_stays(cs: Seq<char>, k: nat, m: nat)
    requires
        k <= m <= cs.len(),
        lex_upto(cs, k).err is Some,
    ensures
        lex_upto(cs, m) == lex_upto(cs, k),
    decreases m - k,
{
    if m > k {
        lemma_error_stays(cs, k, (m - 1) as nat);
    }
}

/// Relies on String::push: the character is appended.
#[verifier::external_body]
fn push_char(s: &mut String, c: char)
    ensures
        final(s)@ == old(s)@.push(c),
{
    s.push(c)
}

fn view_tokens_push(v: &mut Vec<Token>, t: Token)
    ensures
        view_tokens(final(v)@) == view_tokens(old(v)@).push(t@),
{
    let ghost tv = t@;
    v.push(t);
    assert(view_tokens(v@) =~= view_tokens(old(v)@).push(tv));
}

fn is_number_text(s: &String) -> (r: bool)
    ensures
        r == number_text(s@),
{
    let text = s.as_str();
    let n = text.unicode_len();
    let mut dots: usize = 0;
    let mut k: usize = 0;
    while k < n
        invariant
            n == s@.len(),
            text@ == s@,
            k <= n,
            dots as nat == dot_count(s@.subrange(0, k as int)),
            dots <= k,
        decreases n - k,
    {
        let c = text.get_char(k);
        assert(s@.subrange(0, k + 1).drop_last() =~= s@.subrange(0, k as int));
        if c == '.' {
            dots = dots + 1;
        }
        k = k + 1;
    }
    assert(s@.subrange(0, n as int) =~= s@);
    dots <= 1 && dots < n
}

fn take_number(tokens: &mut Vec<Token>, num: &mut String, i: usize) -> (r: Result<(), LexError>)
    ensures
        match flush_number(view_tokens(old(tokens)@), old(num)@, i as int) {
            Ok(t) => r is Ok && view_tokens(final(tokens)@) == t && final(num)@.len() == 0,
            Err(e) => r == Err::<(), LexError>(e),
        },
{
    if num.as_str().unicode_len() == 0 {
        return Ok(());
    }
    if !is_number_text(num) {
        return Err(LexError { kind: LexErrorKind::MalformedNumber, offset: i });
    }
    let text = num.clone();
    *num = String::new();
    view_tokens_push(tokens, Token::Literal(Literal::Number(Num::Lit(text))));
    Ok(())
}

fn is_fn_keyword(w: &String) -> (r: bool)
    ensures
        r == (w@ == seq!['f', 'n']),
{
    let text = w.as_str();
    if text.unicode_len() != 2 {
        return false;
    }
    let a = text.get_char(0);
    let b = text.get_char(1);
    if a == 'f' && b == 'n' {
        assert(w@ =~= seq!['f', 'n']);
        true
    } else {
        false
    }
}

fn take_word(tokens: &mut Vec<Token>, word: &mut String, in_string: bool)
    ensures
        view_tokens(final(tokens)@) == flush_word(view_tokens(old(tokens)@), old(word)@, in_string),
        final(word)@.len() == 0,
{
    if word.as_str().unicode_len() == 0 {
        return;
    }
    let w = word.clone();
    *word = String::new();
    let t = if is_fn_keyword(&w) {
        Token::Fn
    } else if in_string {
        Token::Literal(Literal::Text(w))
    } else {
        Token::Identifier(w)
    };
    view_tokens_push(tokens, t);
}

fn space_char(c: char) -> (r: bool)
    ensures
        r == is_space(c),
{
    let u = c as u32;
    (9 <= u && u <= 13) || u == 32 || u == 0x85 || u == 0xa0 || u == 0x1680 || (0x2000 <= u
        && u <= 0x200a) || u == 0x2028 || u == 0x2029 || u == 0x202f || u == 0x205f || u == 0x3000
}

fn replace_last(tokens: &mut Vec<Token>, t: Token)
    requires
        old(tokens)@.len() > 0,
    ensures
        view_tokens(final(tokens)@) == view_tokens(old(tokens)@).drop_last().push(t@),
{
    let ghost tv = t@;
    let n = tokens.len();
    tokens.set(n - 1, t);
    assert(view_tokens(tokens@) =~= view_tokens(old(tokens)@).drop_last().push(tv));
}

fn take_operator(tokens: &mut Vec<Token>, c: char, i: usize) -> (r: Result<(), LexError>)
    ensures
        match operator(view_tokens(old(tokens)@), c, i as int) {
            Ok(t) => r is Ok && view_tokens(final(tokens)@) == t,
            Err(e) => r == Err::<(), LexError>(e),
        },
{
    let n = tokens.len();
    if space_char(c) {
        Ok(())
    } else if c == '>' {
        if n > 0 && matches!(tokens[n - 1], Token::Equals) {
            replace_last(tokens, Token::FnAssign);
            Ok(())
        } else {
            Err(LexError { kind: LexErrorKind::MalformedArrow, offset: i })
        }
    } else if c == ')' {
        if n > 0 && matches!(tokens[n - 1], Token::LeftBracket) {
            replace_last(tokens, Token::Literal(Literal::Unit));
        } else {
            view_tokens_push(tokens, Token::RightBracket);
        }
        Ok(())
    } else if c == '=' {
        view_tokens_push(tokens, Token::Equals);
        Ok(())
    } else if c == '+' {
        view_tokens_push(tokens, Token::Add);
        Ok(())
    } else if c == '-' {
        view_tokens_push(tokens, Token::Hyphen);
        Ok(())
    } else if c == '*' {
        view_tokens_push(tokens, Token::Multiply);
        Ok(())
    } else if c == '/' {
        view_tokens_push(tokens, Token::Divide);
        Ok(())
    } else if c == '%' {
        view_tokens_push(tokens, Token::Remainder);
        Ok(())
    } else if c == '(' {
        view_tokens_push(tokens, Token::LeftBracket);
        Ok(())
    } else {
        Err(LexError { kind: LexErrorKind::UnexpectedCharacter, offset: i })
    }
}

/// Reads `text` into tokens, in reading order.
pub fn tokenify(text: String) -> (r: Result<Vec<Token>, LexError>)
    ensures
        match r {
            Ok(v) => lex(text@) == Ok::<Seq<TokenV>, LexError>(view_tokens(v@)),
            Err(e) => lex(text@) == Err::<Seq<TokenV>, LexError>(e),
        },
        r is Ok ==> tokens_wf(view_tokens(r->Ok_0@)),
{
    proof {
        lemma_lex_wf(text@, text@.len());
    }
    let chars = text.as_str();
    let n = chars.unicode_len();
    let ghost cs = text@;
    let mut tokens: Vec<Token> = Vec::new();
    let mut in_string = false;
    let mut num = String::new();
    let mut word = String::new();
    let mut k: usize = 0;
    assert(view_tokens(tokens@) =~= Seq::<TokenV>::empty());
    assert(num@ =~= Seq::<char>::empty());
    assert(word@ =~= Seq::<char>::empty());
    while k < n
        invariant
            chars@ == cs,
            text@ == cs,
            n == cs.len(),
            k <= n,
            lex_upto(cs, k as nat) == (LexState {
                tokens: view_tokens(tokens@),
                in_string,
                num: num@,
                word: word@,
                err: None,
            }),
        decreases n - k,
    {
        let c = chars.get_char(k);
        let ghost before = lex_upto(cs, k as nat);
        assert(lex_upto(cs, (k + 1) as nat) == lex_step(before, c, k as int));
        if c == '"' {
            take_word(&mut tokens, &mut word, in_string);
            in_string = !in_string;
            assert(word@ =~= Seq::<char>::empty());
        } else if in_string || (('a' <= c && c <= 'z') || ('A' <= c && c <= 'Z') || c == '_') {
            push_char(&mut word, c);
        } else if ('0' <= c && c <= '9') || c == '.' {
            push_char(&mut num, c);
        } else {
            match take_number(&mut tokens, &mut num, k) {
                Err(e) => {
                    proof {
                        assert(lex_upto(cs, (k + 1) as nat).err == Some(e));
                        lemma_error_stays(cs, (k + 1) as nat, n as nat);
                        assert(lex(cs) == Err::<Seq<TokenV>, LexError>(e));
                    }
                    return Err(e);
                },
                Ok(()) => {},
            }
            take_word(&mut tokens, &mut word, false);
            match take_operator(&mut tokens, c, k) {
                Err(e) => {
                    proof {
                        assert(lex_upto(cs, (k + 1) as nat).err == Some(e));
                        lemma_error_stays(cs, (k + 1) as nat, n as nat);
                        assert(lex(cs) == Err::<Seq<TokenV>, LexError>(e));
                    }
                    return Err(e);
                },
                Ok(()) => {},
            }
            assert(word@ =~= Seq::<char>::empty());
            assert(num@ =~= Seq::<char>::empty());
        }
        k = k + 1;
    }
    if in_string {
        return Err(LexError { kind: LexErrorKind::UnterminatedString, offset: n });
    }
    match take_number(&mut tokens, &mut num, n) {
        Err(e) => {
            return Err(e);
        },
        Ok(()) => {},
    }
    take_word(&mut tokens, &mut word, false);
    Ok(tokens)
}

} // verus!
