use vstd::prelude::*;

verus! {

/// A number as the exact arithmetic term that produced it: decimal literals
/// combined by the four binary operators and negation. Folding the term with
/// IEEE-754 double arithmetic gives the number's value.
#[derive(Debug, PartialEq)]
pub enum Num {
    Lit(String),
    Add(Box<Num>, Box<Num>),
    Sub(Box<Num>, Box<Num>),
    Mul(Box<Num>, Box<Num>),
    Div(Box<Num>, Box<Num>),
    Neg(Box<Num>),
}

/// Mathematical model of a `Num`.
pub enum NumV {
    Lit(Seq<char>),
    Add(Box<NumV>, Box<NumV>),
    Sub(Box<NumV>, Box<NumV>),
    Mul(Box<NumV>, Box<NumV>),
    Div(Box<NumV>, Box<NumV>),
    Neg(Box<NumV>),
}

impl Num {
    /// The term this number stands for.
    pub open spec fn model(&self) -> NumV
        decreases self,
    {
        match self {
            Num::Lit(s) => NumV::Lit(s@),
            Num::Add(a, b) => NumV::Add(Box::new(a.model()), Box::new(b.model())),
            Num::Sub(a, b) => NumV::Sub(Box::new(a.model()), Box::new(b.model())),
            Num::Mul(a, b) => NumV::Mul(Box::new(a.model()), Box::new(b.model())),
            Num::Div(a, b) => NumV::Div(Box::new(a.model()), Box::new(b.model())),
            Num::Neg(a) => NumV::Neg(Box::new(a.model())),
        }
    }

    /// A copy with the same model.
    pub fn duplicate(&self) -> (r: Num)
        ensures
            r.model() == self.model(),
        decreases self,
    {
        match self {
            Num::Lit(s) => Num::Lit(s.clone()),
            Num::Add(a, b) => Num::Add(Box::new(a.duplicate()), Box::new(b.duplicate())),
            Num::Sub(a, b) => Num::Sub(Box::new(a.duplicate()), Box::new(b.duplicate())),
            Num::Mul(a, b) => Num::Mul(Box::new(a.duplicate()), Box::new(b.duplicate())),
            Num::Div(a, b) => Num::Div(Box::new(a.duplicate()), Box::new(b.duplicate())),
            Num::Neg(a) => Num::Neg(Box::new(a.duplicate())),
        }
    }
}

/// A runtime value.
#[derive(Debug, PartialEq)]
pub enum Literal {
    Number(Num),
    Text(String),
    Unit,
}

/// Mathematical model of a `Literal`.
pub enum LitV {
    Number(NumV),
    Text(Seq<char>),
    Unit,
}

impl View for Literal {
    type V = LitV;

    open spec fn view(&self) -> LitV {
        match self {
            Literal::Number(n) => LitV::Number(n.model()),
            Literal::Text(s) => LitV::Text(s@),
            Literal::Unit => LitV::Unit,
        }
    }
}

/// Every literal of the term reads as a number: digits and at most one dot,
/// with at least one digit.
pub open spec fn num_wf(n: NumV) -> bool
    decreases n,
{
    match n {
        NumV::Lit(s) => crate::token::number_chars(s) && crate::token::number_text(s),
        NumV::Add(a, b) => num_wf(*a) && num_wf(*b),
        NumV::Sub(a, b) => num_wf(*a) && num_wf(*b),
        NumV::Mul(a, b) => num_wf(*a) && num_wf(*b),
        NumV::Div(a, b) => num_wf(*a) && num_wf(*b),
        NumV::Neg(a) => num_wf(*a),
    }
}

pub open spec fn lit_wf(v: LitV) -> bool {
    match v {
        LitV::Number(n) => num_wf(n),
        _ => true,
    }
}

/// The operator whose operands had the wrong kinds.
#[derive(Clone, Copy, Debug, PartialEq, Eq, Structural)]
pub enum ArithOp {
    Add,
    Subtract,
    Multiply,
    Divide,
    Negate,
}

/// Why an evaluation failed.
#[derive(Clone, Copy, Debug, PartialEq, Eq, Structural)]
pub enum EvalError {
    UnknownIdentifier,
    ArityError,
    InvalidArgument,
    NonLocalVariableError,
    DuplicateName,
    MalformedFunctionDefinition,
    UnmatchedBracket,
    UnexpectedToken,
    InvalidExpression,
    CallDepthExceeded,
    ArithmeticTypeError(ArithOp),
}

pub open spec fn add_v(a: LitV, b: LitV) -> Result<LitV, EvalError> {
    match (a, b) {
        (LitV::Number(x), LitV::Number(y)) => Ok(LitV::Number(NumV::Add(Box::new(x), Box::new(y)))),
        (LitV::Text(x), LitV::Text(y)) => Ok(LitV::Text(x + y)),
        _ => Err(EvalError::ArithmeticTypeError(ArithOp::Add)),
    }
}

pub open spec fn sub_v(a: LitV, b: LitV) -> Result<LitV, EvalError> {
    match (a, b) {
        (LitV::Number(x), LitV::Number(y)) => Ok(LitV::Number(NumV::Sub(Box::new(x), Box::new(y)))),
        _ => Err(EvalError::ArithmeticTypeError(ArithOp::Subtract)),
    }
}

pub open spec fn mul_v(a: LitV, b: LitV) -> Result<LitV, EvalError> {
    match (a, b) {
        (LitV::Number(x), LitV::Number(y)) => Ok(LitV::Number(NumV::Mul(Box::new(x), Box::new(y)))),
        _ => Err(EvalError::ArithmeticTypeError(ArithOp::Multiply)),
    }
}

pub open spec fn div_v(a: LitV, b: LitV) -> Result<LitV, EvalError> {
    match (a, b) {
        (LitV::Number(x), LitV::Number(y)) => Ok(LitV::Number(NumV::Div(Box::new(x), Box::new(y)))),
        _ => Err(EvalError::ArithmeticTypeError(ArithOp::Divide)),
    }
}

pub open spec fn neg_v(a: LitV) -> Result<LitV, EvalError> {
    match a {
        LitV::Number(x) => Ok(LitV::Number(NumV::Neg(Box::new(x)))),
        _ => Err(EvalError::ArithmeticTypeError(ArithOp::Negate)),
    }
}

/// The model of a result of an operation on literals.
pub open spec fn result_view(r: Result<Literal, EvalError>) -> Result<LitV, EvalError> {
    match r {
        Ok(v) => Ok(v@),
        Err(e) => Err(e),
    }
}

impl Literal {
    /// A copy with the same model.
    pub fn duplicate(&self) -> (r: Literal)
        ensures
            r@ == self@,
    {
        match self {
            Literal::Number(n) => Literal::Number(n.duplicate()),
            Literal::Text(s) => Literal::Text(s.clone()),
            Literal::Unit => Literal::Unit,
        }
    }

    /// Number + Number is their sum, Text + Text their concatenation.
    pub fn add(self, rhs: Literal) -> (r: Result<Literal, EvalError>)
        ensures
            result_view(r) == add_v(self@, rhs@),
            lit_wf(self@) && lit_wf(rhs@) && r is Ok ==> lit_wf(r->Ok_0@),
    {
        match (self, rhs) {
            (Literal::Number(x), Literal::Number(y)) => Ok(Literal::Number(Num::Add(Box::new(x), Box::new(y)))),
            (Literal::Text(x), Literal::Text(y)) => Ok(Literal::Text(x.concat(y.as_str()))),
            _ => Err(EvalError::ArithmeticTypeError(ArithOp::Add)),
        }
    }

    /// Number - Number is their difference.
    pub fn sub(self, rhs: Literal) -> (r: Result<Literal, EvalError>)
        ensures
            result_view(r) == sub_v(self@, rhs@),
            lit_wf(self@) && lit_wf(rhs@) && r is Ok ==> lit_wf(r->Ok_0@),
    {
        match (self, rhs) {
            (Literal::Number(x), Literal::Number(y)) => Ok(Literal::Number(Num::Sub(Box::new(x), Box::new(y)))),
            _ => Err(EvalError::ArithmeticTypeError(ArithOp::Subtract)),
        }
    }

    /// Number * Number is their product.
    pub fn mul(self, rhs: Literal) -> (r: Result<Literal, EvalError>)
        ensures
            result_view(r) == mul_v(self@, rhs@),
            lit_wf(self@) && lit_wf(rhs@) && r is Ok ==> lit_wf(r->Ok_0@),
    {
        match (self, rhs) {
            (Literal::Number(x), Literal::Number(y)) => Ok(Literal::Number(Num::Mul(Box::new(x), Box::new(y)))),
            _ => Err(EvalError::ArithmeticTypeError(ArithOp::Multiply)),
        }
    }

    /// Number / Number is their quotient; a zero divisor is no error.
    pub fn div(self, rhs: Literal) -> (r: Result<Literal, EvalError>)
        ensures
            result_view(r) == div_v(self@, rhs@),
            lit_wf(self@) && lit_wf(rhs@) && r is Ok ==> lit_wf(r->Ok_0@),
    {
        match (self, rhs) {
            (Literal::Number(x), Literal::Number(y)) => Ok(Literal::Number(Num::Div(Box::new(x), Box::new(y)))),
            _ => Err(EvalError::ArithmeticTypeError(ArithOp::Divide)),
        }
    }

    /// The negation of a Number.
    pub fn neg(self) -> (r: Result<Literal, EvalError>)
        ensures
            result_view(r) == neg_v(self@),
            lit_wf(self@) && r is Ok ==> lit_wf(r->Ok_0@),
    {
        match self {
            Literal::Number(x) => Ok(Literal::Number(Num::Neg(Box::new(x)))),
            _ => Err(EvalError::ArithmeticTypeError(ArithOp::Negate)),
        }
    }
}

} // verus!
