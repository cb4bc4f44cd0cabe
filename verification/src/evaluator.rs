//! The postfix evaluator.
//!
//! Evaluation walks the postfix token sequence against an operand stack of
//! double bit patterns. Every decision — stack discipline, domain checks,
//! which error a bad input earns — is made here, on the bit patterns. The
//! floating-point arithmetic itself is not: whenever a value must actually
//! be computed (a literal parsed, an operator or function applied, a
//! factorial taken), `next` hands the caller a [`NumRequest`], and the
//! caller answers through `resume` with whatever bit pattern the arithmetic
//! produced. The contracts state exactly what happens for every possible
//! answer, so nothing is assumed about the arithmetic.

use vstd::prelude::*;

use crate::errors::{CalcError, ErrorKind};
use crate::numeric::{
    is_infinite_bits, is_integer_bits, is_nan_bits, is_negative_bits, is_zero_bits,
    small_int_of_bits, spec_is_infinite, spec_is_integer, spec_is_nan, spec_is_negative,
    spec_is_zero, spec_small_int, F64_170_BITS, F64_E_BITS, F64_PI_BITS, MAGNITUDE_MASK,
};
use crate::operators::Operator;
use crate::strutil::{decimal_string, spec_decimal, str_eq};
use crate::tokens::{clone_token, token_views, Num, Token, TokenView};

verus! {

/// A unary function of the expression language.
#[derive(Debug, Clone, Copy, PartialEq, Eq, Structural)]
pub enum FunKind {
    Sqrt,
    Sin,
    Cos,
    Tan,
    Log,
    Ln,
}

/// The function a name denotes, if any.
pub open spec fn spec_fun_kind(name: Seq<char>) -> Option<FunKind> {
    if name == "sqrt"@ {
        Some(FunKind::Sqrt)
    } else if name == "sin"@ {
        Some(FunKind::Sin)
    } else if name == "cos"@ {
        Some(FunKind::Cos)
    } else if name == "tan"@ {
        Some(FunKind::Tan)
    } else if name == "log"@ {
        Some(FunKind::Log)
    } else if name == "ln"@ {
        Some(FunKind::Ln)
    } else {
        None
    }
}

fn fun_kind(name: &str) -> (r: Option<FunKind>)
    ensures
        r == spec_fun_kind(name@),
{
    if str_eq(name, "sqrt") {
        Some(FunKind::Sqrt)
    } else if str_eq(name, "sin") {
        Some(FunKind::Sin)
    } else if str_eq(name, "cos") {
        Some(FunKind::Cos)
    } else if str_eq(name, "tan") {
        Some(FunKind::Tan)
    } else if str_eq(name, "log") {
        Some(FunKind::Log)
    } else if str_eq(name, "ln") {
        Some(FunKind::Ln)
    } else {
        None
    }
}

/// The name of a function, as it appears in expressions and messages.
pub open spec fn spec_fun_name(k: FunKind) -> Seq<char> {
    match k {
        FunKind::Sqrt => "sqrt"@,
        FunKind::Sin => "sin"@,
        FunKind::Cos => "cos"@,
        FunKind::Tan => "tan"@,
        FunKind::Log => "log"@,
        FunKind::Ln => "ln"@,
    }
}

fn fun_name(k: FunKind) -> (r: &'static str)
    ensures
        r@ == spec_fun_name(k),
{
    match k {
        FunKind::Sqrt => "sqrt",
        FunKind::Sin => "sin",
        FunKind::Cos => "cos",
        FunKind::Tan => "tan",
        FunKind::Log => "log",
        FunKind::Ln => "ln",
    }
}

/// One piece of floating-point arithmetic the caller must perform. The
/// answer to hand back to `resume` is the bit pattern of the double the
/// arithmetic produces.
#[derive(Debug, Clone, PartialEq)]
pub enum NumRequest {
    /// Read the literal as a double.
    ParseLit(String),
    /// Apply the binary operator to the two doubles, left then right.
    Binary(Operator, u64, u64),
    /// Apply the unary function to the double.
    Unary(FunKind, u64),
    /// The factorial of this small non-negative integer, as a double.
    Factorial(u64),
}

/// The mathematical view of an arithmetic request.
pub enum ReqView {
    ParseLit(Seq<char>),
    Binary(Operator, u64, u64),
    Unary(FunKind, u64),
    Factorial(u64),
}

impl View for NumRequest {
    type V = ReqView;

    open spec fn view(&self) -> ReqView {
        match self {
            NumRequest::ParseLit(s) => ReqView::ParseLit(s@),
            NumRequest::Binary(op, l, r) => ReqView::Binary(*op, *l, *r),
            NumRequest::Unary(k, a) => ReqView::Unary(*k, *a),
            NumRequest::Factorial(n) => ReqView::Factorial(*n),
        }
    }
}

/// The arithmetic a pending request was issued for; `resume` judges the
/// answer by it.
#[derive(Debug, Clone, Copy, PartialEq, Eq, Structural)]
pub enum Pending {
    Lit,
    Bin(Operator),
    Un(FunKind),
    Fact,
}

/// What one call of `next` or `resume` reports.
#[derive(Debug)]
pub enum Outcome {
    /// Progress was made without arithmetic; call `next` again.
    Continue,
    /// The caller must perform the request and answer through `resume`.
    Need(NumRequest),
    /// Evaluation finished with this bit pattern as the single result.
    Done(u64),
    /// Evaluation failed; the machine is halted.
    Fail(CalcError),
}

/// What the evaluator does at one token, given the operand stack: push a
/// value, issue an arithmetic request (with the operands it consumes), end
/// with the single result, or fail.
pub enum StepSpec {
    Push(u64),
    Request(ReqView, Pending, Seq<u64>),
    Finish(u64),
    Error(ErrorKind, Seq<char>),
}

/// The evaluator's decision at position `i` of the postfix sequence with
/// operand stack `stack`.
pub open spec fn spec_step(toks: Seq<TokenView>, i: int, stack: Seq<u64>) -> StepSpec {
    if i < 0 || i >= toks.len() {
        if stack.len() == 1 {
            StepSpec::Finish(stack[0])
        } else {
            StepSpec::Error(
                ErrorKind::InsufficientOperands,
                "Invalid expression: expected single result, found "@ + spec_decimal(
                    stack.len() as int,
                ) + " values"@,
            )
        }
    } else {
        match toks[i] {
            TokenView::Number(lit) => StepSpec::Request(ReqView::ParseLit(lit), Pending::Lit, stack),
            TokenView::Value(b) => StepSpec::Push(b),
            TokenView::Constant(name) => if name == "pi"@ {
                StepSpec::Push(F64_PI_BITS)
            } else if name == "e"@ {
                StepSpec::Push(F64_E_BITS)
            } else {
                StepSpec::Error(ErrorKind::Internal, "Unknown constant: "@ + name)
            },
            TokenView::Factorial => if stack.len() == 0 {
                StepSpec::Error(
                    ErrorKind::InsufficientOperands,
                    "Invalid expression: factorial requires an operand"@,
                )
            } else {
                let arg = stack.last();
                if spec_is_negative(arg) {
                    StepSpec::Error(ErrorKind::Domain, "Factorial requires non-negative number"@)
                } else if !spec_is_integer(arg) {
                    StepSpec::Error(ErrorKind::Domain, "Factorial requires integer argument"@)
                } else if arg & MAGNITUDE_MASK > F64_170_BITS {
                    StepSpec::Error(ErrorKind::Domain, "Factorial argument too large (max 170)"@)
                } else {
                    StepSpec::Request(
                        ReqView::Factorial(spec_small_int(arg)),
                        Pending::Fact,
                        stack.drop_last(),
                    )
                }
            },
            TokenView::Function(name) => if stack.len() == 0 {
                StepSpec::Error(
                    ErrorKind::InsufficientOperands,
                    "Invalid expression: function "@ + name + " requires an argument"@,
                )
            } else {
                let arg = stack.last();
                match spec_fun_kind(name) {
                    None => StepSpec::Error(ErrorKind::Internal, "Unknown function: "@ + name),
                    Some(k) => if k is Sqrt && spec_is_negative(arg) {
                        StepSpec::Error(
                            ErrorKind::Domain,
                            "Cannot take square root of negative number"@,
                        )
                    } else if k is Log && (spec_is_negative(arg) || spec_is_zero(arg)) {
                        StepSpec::Error(ErrorKind::Domain, "Logarithm requires positive argument"@)
                    } else if k is Ln && (spec_is_negative(arg) || spec_is_zero(arg)) {
                        StepSpec::Error(
                            ErrorKind::Domain,
                            "Natural logarithm requires positive argument"@,
                        )
                    } else {
                        StepSpec::Request(ReqView::Unary(k, arg), Pending::Un(k), stack.drop_last())
                    },
                }
            },
            TokenView::Operator(op) => if stack.len() < 2 {
                StepSpec::Error(
                    ErrorKind::InsufficientOperands,
                    "Invalid expression: insufficient operands for operator"@,
                )
            } else {
                let right = stack.last();
                let left = stack[stack.len() - 2];
                if op is Divide && spec_is_zero(right) {
                    StepSpec::Error(ErrorKind::Arithmetic, "Division by zero"@)
                } else if op is Modulo && spec_is_zero(right) {
                    StepSpec::Error(ErrorKind::Arithmetic, "Modulo by zero"@)
                } else {
                    StepSpec::Request(
                        ReqView::Binary(op, left, right),
                        Pending::Bin(op),
                        stack.drop_last().drop_last(),
                    )
                }
            },
            TokenView::LeftParen => StepSpec::Error(
                ErrorKind::Internal,
                "Unexpected parenthesis in postfix expression"@,
            ),
            TokenView::RightParen => StepSpec::Error(
                ErrorKind::Internal,
                "Unexpected parenthesis in postfix expression"@,
            ),
            TokenView::Variable(name) => StepSpec::Error(
                ErrorKind::UndefinedVariable,
                "Undefined variable in expression: '"@ + name + "'"@,
            ),
        }
    }
}

/// What `resume` does with the answer to a pending request: push it, or
/// reject a non-finite result.
pub enum ResumeSpec {
    Push(u64),
    Error(ErrorKind, Seq<char>),
}

/// The evaluator's judgement of the answer to a pending request.
pub open spec fn spec_resume(p: Pending, answer: u64) -> ResumeSpec {
    match p {
        Pending::Lit => ResumeSpec::Push(answer),
        Pending::Fact => ResumeSpec::Push(answer),
        Pending::Bin(op) => if op is Power && (spec_is_infinite(answer) || spec_is_nan(answer)) {
            ResumeSpec::Error(ErrorKind::Arithmetic, "Power operation resulted in invalid value"@)
        } else if spec_is_infinite(answer) {
            ResumeSpec::Error(ErrorKind::Arithmetic, "Numeric overflow"@)
        } else if spec_is_nan(answer) {
            ResumeSpec::Error(ErrorKind::Arithmetic, "Invalid numeric result"@)
        } else {
            ResumeSpec::Push(answer)
        },
        Pending::Un(k) => if spec_is_infinite(answer) || spec_is_nan(answer) {
            ResumeSpec::Error(
                ErrorKind::Arithmetic,
                "Function "@ + spec_fun_name(k) + " resulted in invalid value"@,
            )
        } else {
            ResumeSpec::Push(answer)
        },
    }
}

/// The postfix evaluation machine: the remaining tokens, the operand stack,
/// and at most one pending arithmetic request.
#[derive(Debug)]
pub struct PostfixEvaluator {
    postfix: Vec<Token>,
    idx: usize,
    stack: Vec<u64>,
    pending: Option<Pending>,
    halted: bool,
}

impl PostfixEvaluator {
    /// The postfix token sequence under evaluation.
    pub closed spec fn tokens(self) -> Seq<TokenView> {
        token_views(self.postfix@)
    }

    /// The position of the next token to process.
    pub closed spec fn pos(self) -> int {
        self.idx as int
    }

    /// The operand stack, bottom first.
    pub closed spec fn operands(self) -> Seq<u64> {
        self.stack@
    }

    /// The request the machine is waiting on, if any.
    pub closed spec fn pending_req(self) -> Option<Pending> {
        self.pending
    }

    /// Whether the machine has finished or failed.
    pub closed spec fn halted(self) -> bool {
        self.halted
    }

    /// Whether the machine is well-formed: the position never passes the end.
    pub closed spec fn wf(self) -> bool {
        self.idx as int <= self.postfix@.len()
    }

    /// Starts evaluating a postfix token sequence with an empty stack.
    pub fn new(postfix: Vec<Token>) -> (r: PostfixEvaluator)
        ensures
            r.wf(),
            r.tokens() == token_views(postfix@),
            r.pos() == 0,
            r.operands() == Seq::<u64>::empty(),
            r.pending_req() is None,
            !r.halted(),
    {
        let r = PostfixEvaluator { postfix, idx: 0, stack: Vec::new(), pending: None, halted: false };
        proof {
            assert(r.operands() =~= Seq::<u64>::empty());
        }
        r
    }

    /// Processes the next token. Pushes a value and continues, issues the
    /// arithmetic request the token calls for, finishes with the single
    /// result, or fails exactly as the decision function says.
    pub fn next(&mut self) -> (r: Outcome)
        requires
            old(self).wf(),
            !old(self).halted(),
            old(self).pending_req() is None,
        ensures
            final(self).wf(),
            final(self).tokens() == old(self).tokens(),
            match spec_step(old(self).tokens(), old(self).pos(), old(self).operands()) {
                StepSpec::Push(v) => r is Continue && final(self).pos() == old(self).pos() + 1
                    && final(self).operands() == old(self).operands().push(v)
                    && final(self).pending_req() is None && !final(self).halted(),
                StepSpec::Request(req, p, st) => (match r {
                    Outcome::Need(q) => q@ == req,
                    _ => false,
                }) && final(self).pos() == old(self).pos() + 1 && final(self).operands() == st
                    && final(self).pending_req() == Some(p) && !final(self).halted(),
                StepSpec::Finish(v) => (match r {
                    Outcome::Done(v2) => v2 == v,
                    _ => false,
                }) && final(self).halted(),
                StepSpec::Error(k, m) => (match r {
                    Outcome::Fail(e) => e@ == (k, m),
                    _ => false,
                }) && final(self).halted(),
            },
    {
        let ghost step = spec_step(self.tokens(), self.pos(), self.operands());
        if self.idx >= self.postfix.len() {
            self.halted = true;
            if self.stack.len() == 1 {
                return Outcome::Done(self.stack[0]);
            }
            let msg = String::from_str("Invalid expression: expected single result, found ").concat(
                decimal_string(self.stack.len() as u64).as_str(),
            ).concat(" values");
            return Outcome::Fail(CalcError::new(ErrorKind::InsufficientOperands, msg));
        }
        let t = clone_token(&self.postfix[self.idx]);
        proof {
            assert(t@ == self.tokens()[self.pos()]);
        }
        match t {
            Token::Number(Num::Lit(s)) => {
                self.idx = self.idx + 1;
                self.pending = Some(Pending::Lit);
                Outcome::Need(NumRequest::ParseLit(s))
            },
            Token::Number(Num::Val(b)) => {
                self.idx = self.idx + 1;
                self.stack.push(b);
                Outcome::Continue
            },
            Token::Constant(name) => {
                if str_eq(name.as_str(), "pi") {
                    self.idx = self.idx + 1;
                    self.stack.push(F64_PI_BITS);
                    Outcome::Continue
                } else if str_eq(name.as_str(), "e") {
                    self.idx = self.idx + 1;
                    self.stack.push(F64_E_BITS);
                    Outcome::Continue
                } else {
                    self.halted = true;
                    let msg = String::from_str("Unknown constant: ").concat(name.as_str());
                    Outcome::Fail(CalcError::new(ErrorKind::Internal, msg))
                }
            },
            Token::Factorial => {
                if self.stack.len() == 0 {
                    self.halted = true;
                    return Outcome::Fail(CalcError::from_parts(
                        ErrorKind::InsufficientOperands,
                        "Invalid expression: factorial requires an operand",
                    ));
                }
                let arg = self.stack[self.stack.len() - 1];
                if is_negative_bits(arg) {
                    self.halted = true;
                    return Outcome::Fail(CalcError::from_parts(
                        ErrorKind::Domain,
                        "Factorial requires non-negative number",
                    ));
                }
                if !is_integer_bits(arg) {
                    self.halted = true;
                    return Outcome::Fail(CalcError::from_parts(
                        ErrorKind::Domain,
                        "Factorial requires integer argument",
                    ));
                }
                if arg & MAGNITUDE_MASK > F64_170_BITS {
                    self.halted = true;
                    return Outcome::Fail(CalcError::from_parts(
                        ErrorKind::Domain,
                        "Factorial argument too large (max 170)",
                    ));
                }
                let ghost st_pre = self.stack@;
                let popped = self.stack.pop();
                proof {
                    assert(self.stack@ =~= st_pre.drop_last());
                }
                let n = small_int_of_bits(arg);
                self.idx = self.idx + 1;
                self.pending = Some(Pending::Fact);
                Outcome::Need(NumRequest::Factorial(n))
            },
            Token::Function(name) => {
                if self.stack.len() == 0 {
                    self.halted = true;
                    let msg = String::from_str("Invalid expression: function ").concat(
                        name.as_str(),
                    ).concat(" requires an argument");
                    return Outcome::Fail(CalcError::new(ErrorKind::InsufficientOperands, msg));
                }
                let arg = self.stack[self.stack.len() - 1];
                match fun_kind(name.as_str()) {
                    None => {
                        self.halted = true;
                        let msg = String::from_str("Unknown function: ").concat(name.as_str());
                        Outcome::Fail(CalcError::new(ErrorKind::Internal, msg))
                    },
                    Some(k) => {
                        if matches!(k, FunKind::Sqrt) && is_negative_bits(arg) {
                            self.halted = true;
                            return Outcome::Fail(CalcError::from_parts(
                                ErrorKind::Domain,
                                "Cannot take square root of negative number",
                            ));
                        }
                        if matches!(k, FunKind::Log) && (is_negative_bits(arg) || is_zero_bits(
                            arg,
                        )) {
                            self.halted = true;
                            return Outcome::Fail(CalcError::from_parts(
                                ErrorKind::Domain,
                                "Logarithm requires positive argument",
                            ));
                        }
                        if matches!(k, FunKind::Ln) && (is_negative_bits(arg) || is_zero_bits(
                            arg,
                        )) {
                            self.halted = true;
                            return Outcome::Fail(CalcError::from_parts(
                                ErrorKind::Domain,
                                "Natural logarithm requires positive argument",
                            ));
                        }
                        let ghost st_pre = self.stack@;
                        let popped = self.stack.pop();
                        proof {
                            assert(self.stack@ =~= st_pre.drop_last());
                        }
                        self.idx = self.idx + 1;
                        self.pending = Some(Pending::Un(k));
                        Outcome::Need(NumRequest::Unary(k, arg))
                    },
                }
            },
            Token::Operator(op) => {
                if self.stack.len() < 2 {
                    self.halted = true;
                    return Outcome::Fail(CalcError::from_parts(
                        ErrorKind::InsufficientOperands,
                        "Invalid expression: insufficient operands for operator",
                    ));
                }
                let right = self.stack[self.stack.len() - 1];
                let left = self.stack[self.stack.len() - 2];
                if matches!(op, Operator::Divide) && is_zero_bits(right) {
                    self.halted = true;
                    return Outcome::Fail(CalcError::from_parts(
                        ErrorKind::Arithmetic,
                        "Division by zero",
                    ));
                }
                if matches!(op, Operator::Modulo) && is_zero_bits(right) {
                    self.halted = true;
                    return Outcome::Fail(CalcError::from_parts(
                        ErrorKind::Arithmetic,
                        "Modulo by zero",
                    ));
                }
                let ghost st_pre = self.stack@;
                let p1 = self.stack.pop();
                let p2 = self.stack.pop();
                proof {
                    assert(self.stack@ =~= st_pre.drop_last().drop_last());
                }
                self.idx = self.idx + 1;
                self.pending = Some(Pending::Bin(op));
                Outcome::Need(NumRequest::Binary(op, left, right))
            },
            Token::LeftParen => {
                self.halted = true;
                Outcome::Fail(CalcError::from_parts(
                    ErrorKind::Internal,
                    "Unexpected parenthesis in postfix expression",
                ))
            },
            Token::RightParen => {
                self.halted = true;
                Outcome::Fail(CalcError::from_parts(
                    ErrorKind::Internal,
                    "Unexpected parenthesis in postfix expression",
                ))
            },
            Token::Variable(name) => {
                self.halted = true;
                let msg = String::from_str("Undefined variable in expression: '").concat(
                    name.as_str(),
                ).concat("'");
                Outcome::Fail(CalcError::new(ErrorKind::UndefinedVariable, msg))
            },
        }
    }

    /// Integrates the caller's answer to the pending request: pushes it, or
    /// fails on a non-finite operator or function result, exactly as the
    /// judgement function says.
    pub fn resume(&mut self, answer: u64) -> (r: Outcome)
        requires
            old(self).wf(),
            !old(self).halted(),
            old(self).pending_req() is Some,
        ensures
            final(self).wf(),
            final(self).tokens() == old(self).tokens(),
            final(self).pos() == old(self).pos(),
            match old(self).pending_req() {
                Some(p) => match spec_resume(p, answer) {
                    ResumeSpec::Push(v) => r is Continue
                        && final(self).operands() == old(self).operands().push(v)
                        && final(self).pending_req() is None && !final(self).halted(),
                    ResumeSpec::Error(k, m) => (match r {
                        Outcome::Fail(e) => e@ == (k, m),
                        _ => false,
                    }) && final(self).halted(),
                },
                None => false,
            },
    {
        let p = self.pending.take();
        let pk = match p {
            Some(pk) => pk,
            None => {
                proof {
                    assert(false);
                }
                Pending::Lit
            },
        };
        match pk {
            Pending::Lit => {
                self.stack.push(answer);
                Outcome::Continue
            },
            Pending::Fact => {
                self.stack.push(answer);
                Outcome::Continue
            },
            Pending::Bin(op) => {
                if matches!(op, Operator::Power) && (is_infinite_bits(answer) || is_nan_bits(
                    answer,
                )) {
                    self.halted = true;
                    return Outcome::Fail(CalcError::from_parts(
                        ErrorKind::Arithmetic,
                        "Power operation resulted in invalid value",
                    ));
                }
                if is_infinite_bits(answer) {
                    self.halted = true;
                    return Outcome::Fail(CalcError::from_parts(
                        ErrorKind::Arithmetic,
                        "Numeric overflow",
                    ));
                }
                if is_nan_bits(answer) {
                    self.halted = true;
                    return Outcome::Fail(CalcError::from_parts(
                        ErrorKind::Arithmetic,
                        "Invalid numeric result",
                    ));
                }
                self.stack.push(answer);
                Outcome::Continue
            },
            Pending::Un(k) => {
                if is_infinite_bits(answer) || is_nan_bits(answer) {
                    self.halted = true;
                    let msg = String::from_str("Function ").concat(fun_name(k)).concat(
                        " resulted in invalid value",
                    );
                    return Outcome::Fail(CalcError::new(ErrorKind::Arithmetic, msg));
                }
                self.stack.push(answer);
                Outcome::Continue
            },
        }
    }
}


/// The outcome of a complete evaluation, given the sequence of answers the
/// caller's arithmetic returns, in order.
pub enum RunResult {
    /// Evaluation finished with this bit pattern.
    Value(u64),
    /// Evaluation failed with this error.
    Failure(ErrorKind, Seq<char>),
    /// The answer sequence was shorter than the requests issued.
    OutOfAnswers,
}

/// The evaluator's complete behaviour as a pure function: what evaluating
/// the postfix tokens from position `i` with operand stack `stack` yields,
/// when the caller's arithmetic answers each request with the next element
/// of `answers`. One call of `next`, together with the call of `resume` that
/// answers its request, advances this function by one step.
pub open spec fn spec_run(
    toks: Seq<TokenView>,
    i: int,
    stack: Seq<u64>,
    answers: Seq<u64>,
) -> RunResult
    decreases toks.len() - i,
{
    if i < 0 {
        RunResult::OutOfAnswers
    } else {
        match spec_step(toks, i, stack) {
            StepSpec::Finish(v) => RunResult::Value(v),
            StepSpec::Error(k, m) => RunResult::Failure(k, m),
            StepSpec::Push(v) => spec_run(toks, i + 1, stack.push(v), answers),
            StepSpec::Request(_, p, st) => if answers.len() == 0 {
                RunResult::OutOfAnswers
            } else {
                match spec_resume(p, answers[0]) {
                    ResumeSpec::Push(v) => spec_run(toks, i + 1, st.push(v), answers.drop_first()),
                    ResumeSpec::Error(k, m) => RunResult::Failure(k, m),
                }
            },
        }
    }
}

} // verus!

