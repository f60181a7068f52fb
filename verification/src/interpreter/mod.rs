//! Evaluation: an expression tree to a 32-bit integer, with every binary
//! operation checked for overflow.

use crate::common::text::{decimal, push_signed_decimal};
use crate::parser::{Expression, Operation};
use vstd::prelude::*;

verus! {

/// Why an expression has no value.
#[derive(Debug, Clone, Copy, PartialEq, Eq, Structural)]
pub enum EvalError {
    /// The result of the operation does not fit in 32 bits.
    Overflow(Operation),
    /// The right operand of a division is zero.
    DivisionByZero,
}

/// The outcome of evaluating a whole expression.
#[derive(Debug, Clone, Copy, PartialEq, Eq)]
pub struct InterpreterResult {
    result: Result<i32, EvalError>,
}

impl View for InterpreterResult {
    type V = Result<i32, EvalError>;

    closed spec fn view(&self) -> Result<i32, EvalError> {
        self.result
    }
}

/// The value of an integer literal: its 32 bits read as a signed number in
/// two's complement.
pub open spec fn reinterpret(literal: u32) -> i32 {
    if literal <= i32::MAX {
        literal as i32
    } else {
        (literal - 0x1_0000_0000) as i32
    }
}

/// Negation in two's complement: the smallest number is its own negative.
pub open spec fn negate(value: i32) -> i32 {
    if value == i32::MIN {
        i32::MIN
    } else {
        (-value) as i32
    }
}

/// The quotient of `v1` by `v2` rounded towards zero.
pub open spec fn quotient(v1: int, v2: int) -> int
    recommends
        v2 != 0,
{
    if v1 >= 0 && v2 > 0 {
        v1 / v2
    } else if v1 >= 0 {
        -(v1 / (-v2))
    } else if v2 > 0 {
        -((-v1) / v2)
    } else {
        (-v1) / (-v2)
    }
}

/// The exact result of `operation` on `v1` and `v2`, for a divisor other
/// than zero.
pub open spec fn exact(operation: Operation, v1: int, v2: int) -> int {
    match operation {
        Operation::Plus => v1 + v2,
        Operation::Minus => v1 - v2,
        Operation::Times => v1 * v2,
        Operation::Div => quotient(v1, v2),
    }
}

/// `operation` on `v1` and `v2` with checks: a division by zero is
/// reported, and so is an exact result that does not fit in 32 bits, under
/// the name of the operation.
pub open spec fn apply(operation: Operation, v1: i32, v2: i32) -> Result<i32, EvalError> {
    if operation is Div && v2 == 0 {
        Err(EvalError::DivisionByZero)
    } else if i32::MIN <= exact(operation, v1 as int, v2 as int) <= i32::MAX {
        Ok(exact(operation, v1 as int, v2 as int) as i32)
    } else {
        Err(EvalError::Overflow(operation))
    }
}

/// The value of `expression`. Operands are evaluated from left to right,
/// and the first error ends the evaluation.
pub open spec fn value_of(expression: Expression) -> Result<i32, EvalError>
    decreases expression,
{
    match expression {
        Expression::Integer(literal) => Ok(reinterpret(literal)),
        Expression::UnaryMinus(operand) => match value_of(*operand) {
            Ok(value) => Ok(negate(value)),
            Err(error) => Err(error),
        },
        Expression::BinaryOperation(left, operation, right) => match value_of(*left) {
            Err(error) => Err(error),
            Ok(v1) => match value_of(*right) {
                Err(error) => Err(error),
                Ok(v2) => apply(operation, v1, v2),
            },
        },
    }
}

/// The value of `expression` in unbounded integers: nothing overflows,
/// and only a division by zero has no value.
pub open spec fn exact_value(expression: Expression) -> Option<int>
    decreases expression,
{
    match expression {
        Expression::Integer(literal) => Some(reinterpret(literal) as int),
        Expression::UnaryMinus(operand) => match exact_value(*operand) {
            Some(value) => Some(-value),
            None => None,
        },
        Expression::BinaryOperation(left, operation, right) => match (
            exact_value(*left),
            exact_value(*right),
        ) {
            (Some(v1), Some(v2)) => if operation is Div && v2 == 0 {
                None
            } else {
                Some(exact(operation, v1, v2))
            },
            _ => None,
        },
    }
}

/// Whether some unary minus in `expression` is applied to the smallest
/// 32-bit number, the one case in which evaluation wraps around.
pub open spec fn negates_smallest(expression: Expression) -> bool
    decreases expression,
{
    match expression {
        Expression::Integer(_) => false,
        Expression::UnaryMinus(operand) => negates_smallest(*operand) || value_of(*operand) == Ok::<
            i32,
            EvalError,
        >(i32::MIN),
        Expression::BinaryOperation(left, _, right) => negates_smallest(*left) || negates_smallest(
            *right,
        ),
    }
}

/// A value that evaluation gives is the exact one, unless a unary minus
/// wrapped around on the way.
pub proof fn lemma_value_is_exact(expression: Expression)
    requires
        value_of(expression) is Ok,
        !negates_smallest(expression),
    ensures
        exact_value(expression) == Some(value_of(expression)->Ok_0 as int),
    decreases expression,
{
    match expression {
        Expression::Integer(_) => {},
        Expression::UnaryMinus(operand) => {
            lemma_value_is_exact(*operand);
        },
        Expression::BinaryOperation(left, _, right) => {
            lemma_value_is_exact(*left);
            lemma_value_is_exact(*right);
        },
    }
}

/// Evaluation fails exactly if an operand fails or the operation on the
/// two values does, and the leftmost failure is the one reported.
pub proof fn lemma_first_error(left: Expression, operation: Operation, right: Expression)
    ensures
        ({
            let whole = value_of(
                Expression::BinaryOperation(Box::new(left), operation, Box::new(right)),
            );
            &&& value_of(left) is Err ==> whole == value_of(left)
            &&& value_of(left) is Ok && value_of(right) is Err ==> whole == value_of(right)
            &&& value_of(left) is Ok && value_of(right) is Ok ==> whole == apply(
                operation,
                value_of(left)->Ok_0,
                value_of(right)->Ok_0,
            )
        }),
{
}

/// What the checked operations give: the exact result where it fits in 32
/// bits, and otherwise the error of the operation. Only a division can
/// divide by zero, and a division overflows on one pair of operands only.
pub proof fn lemma_apply_outcomes(operation: Operation, v1: i32, v2: i32)
    ensures
        apply(operation, v1, v2) is Ok ==> apply(operation, v1, v2)->Ok_0 == exact(
            operation,
            v1 as int,
            v2 as int,
        ),
        apply(operation, v1, v2) == Err::<i32, EvalError>(EvalError::DivisionByZero) <==> operation
            is Div && v2 == 0,
        apply(Operation::Div, v1, v2) == Err::<i32, EvalError>(
            EvalError::Overflow(Operation::Div),
        ) <==> v1 == i32::MIN && v2 == -1,
{
    if v2 != 0 {
        lemma_quotient_bounds(v1 as int, v2 as int);
    }
}

/// The quotient is no larger in magnitude than the dividend.
pub proof fn lemma_quotient_bounds(v1: int, v2: int)
    requires
        v2 != 0,
    ensures
        v1 >= 0 ==> -v1 <= quotient(v1, v2) <= v1,
        v1 < 0 ==> v1 <= quotient(v1, v2) <= -v1,
        v2 == -1 ==> quotient(v1, v2) == -v1,
        v1 < 0 && v2 != -1 ==> quotient(v1, v2) < -v1,
{
    let a = if v1 >= 0 { v1 } else { -v1 };
    let b = if v2 > 0 { v2 } else { -v2 };
    assert(0 <= a / b <= a) by (nonlinear_arith)
        requires
            a >= 0,
            b >= 1,
    ;
    assert(b == 1 ==> a / b == a) by (nonlinear_arith)
        requires
            a >= 0,
            b >= 1,
    ;
    assert(a > 0 && b >= 2 ==> a / b < a) by (nonlinear_arith)
        requires
            a >= 0,
            b >= 1,
    ;
}

/// Zero divided by anything but zero is zero.
pub proof fn lemma_zero_quotient(v2: int)
    requires
        v2 != 0,
    ensures
        quotient(0, v2) == 0,
{
    assert(v2 > 0 ==> 0int / v2 == 0) by (nonlinear_arith);
    assert(v2 < 0 ==> 0int / (-v2) == 0) by (nonlinear_arith);
}

/// An arithmetic operation on two 32-bit integers that reports failure.
pub trait OperationEvaluator {
    /// What the operation gives on `v1` and `v2`.
    spec fn outcome(&self, v1: i32, v2: i32) -> Result<i32, EvalError>;

    /// Applies the operation to `v1` and `v2`.
    fn operation(&self, v1: i32, v2: i32) -> (result: Result<i32, EvalError>)
        ensures
            result == self.outcome(v1, v2),
    ;
}

/// The value inside `op`, or `if_error` where there is none.
pub fn to_result(op: Option<i32>, if_error: EvalError) -> (result: Result<i32, EvalError>)
    ensures
        result == match op {
            Some(value) => Ok::<i32, EvalError>(value),
            None => Err(if_error),
        },
{
    match op {
        Some(i) => Ok(i),
        None => Err(if_error),
    }
}

impl OperationEvaluator for Operation {
    open spec fn outcome(&self, v1: i32, v2: i32) -> Result<i32, EvalError> {
        apply(*self, v1, v2)
    }

    fn operation(&self, v1: i32, v2: i32) -> (result: Result<i32, EvalError>) {
        let result = match self {
            Operation::Plus => to_result(v1.checked_add(v2), EvalError::Overflow(Operation::Plus)),
            Operation::Minus => to_result(
                v1.checked_sub(v2),
                EvalError::Overflow(Operation::Minus),
            ),
            Operation::Times => to_result(
                v1.checked_mul(v2),
                EvalError::Overflow(Operation::Times),
            ),
            Operation::Div => {
                if v2 == 0 {
                    Err(EvalError::DivisionByZero)
                } else {
                    proof {
                        lemma_zero_quotient(v2 as int);
                    }
                    to_result(v1.checked_div(v2), EvalError::Overflow(Operation::Div))
                }
            },
        };
        assert(result == self.outcome(v1, v2));
        result
    }
}

/// Something that evaluates to a 32-bit integer.
pub trait Interpreter {
    /// What evaluation gives.
    spec fn value(&self) -> Result<i32, EvalError>;

    /// Evaluates: the value, or the first error on the way to it.
    fn evaluate(&self) -> (result: Result<i32, EvalError>)
        ensures
            result == self.value(),
    ;

    /// Evaluates, and wraps the outcome for display.
    fn evaluate_toplevel(&self) -> (result: InterpreterResult)
        ensures
            result@ == self.value(),
    {
        InterpreterResult { result: self.evaluate() }
    }
}

/// The signed reading of a literal's 32 bits.
pub fn literal_value(literal: u32) -> (result: i32)
    ensures
        result == reinterpret(literal),
{
    if literal <= 0x7fff_ffff {
        literal as i32
    } else {
        (literal - 0x8000_0000) as i32 + i32::MIN
    }
}

/// The negative of `value` in two's complement.
pub fn negated(value: i32) -> (result: i32)
    ensures
        result == negate(value),
{
    if value == i32::MIN {
        value
    } else {
        -value
    }
}

impl Interpreter for Expression {
    open spec fn value(&self) -> Result<i32, EvalError> {
        value_of(*self)
    }

    fn evaluate(&self) -> (result: Result<i32, EvalError>)
        decreases *self,
    {
        match self {
            Expression::Integer(i) => Ok(literal_value(*i)),
            Expression::UnaryMinus(e) => {
                let e_value = match e.evaluate() {
                    Ok(value) => value,
                    Err(error) => return Err(error),
                };
                Ok(negated(e_value))
            },
            Expression::BinaryOperation(e1, op, e2) => {
                let e1_value = match e1.evaluate() {
                    Ok(value) => value,
                    Err(error) => return Err(error),
                };
                let e2_value = match e2.evaluate() {
                    Ok(value) => value,
                    Err(error) => return Err(error),
                };
                op.operation(e1_value, e2_value)
            },
        }
    }
}

/// The message of an arithmetic error.
pub open spec fn eval_error_text(error: EvalError) -> Seq<char> {
    match error {
        EvalError::Overflow(Operation::Plus) => "addition overflow"@,
        EvalError::Overflow(Operation::Minus) => "subtraction overflow"@,
        EvalError::Overflow(Operation::Times) => "multiplication overflow"@,
        EvalError::Overflow(Operation::Div) => "Division overflow / underflow"@,
        EvalError::DivisionByZero => "Division by zero"@,
    }
}

/// An outcome as it is shown: the value in decimal, or the message of the
/// error after `Error: `.
pub open spec fn result_text(result: Result<i32, EvalError>) -> Seq<char> {
    match result {
        Ok(value) => decimal(value as int),
        Err(error) => "Error: "@ + eval_error_text(error),
    }
}

impl EvalError {
    /// The message of the error.
    pub fn message(&self) -> (result: &'static str)
        ensures
            result@ == eval_error_text(*self),
    {
        match self {
            EvalError::Overflow(Operation::Plus) => "addition overflow",
            EvalError::Overflow(Operation::Minus) => "subtraction overflow",
            EvalError::Overflow(Operation::Times) => "multiplication overflow",
            EvalError::Overflow(Operation::Div) => "Division overflow / underflow",
            EvalError::DivisionByZero => "Division by zero",
        }
    }

    /// The message of the error.
    pub fn to_string(&self) -> (result: String)
        ensures
            result@ == eval_error_text(*self),
    {
        String::from_str(self.message())
    }
}

impl InterpreterResult {
    /// The outcome that is shown.
    pub fn result(&self) -> (result: Result<i32, EvalError>)
        ensures
            result == self@,
    {
        self.result
    }

    /// The outcome as it is shown.
    pub fn to_string(&self) -> (result: String)
        ensures
            result@ == result_text(self@),
    {
        match self.result {
            Ok(i) => {
                let mut text = String::new();
                push_signed_decimal(&mut text, i);
                assert(text@ =~= result_text(self@));
                text
            },
            Err(error) => {
                let mut text = String::from_str("Error: ");
                text.append(error.message());
                text
            },
        }
    }
}

} // verus!
