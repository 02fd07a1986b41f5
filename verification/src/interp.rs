//! Evaluation outcomes, structured evaluation errors and checked integer arithmetic.
use vstd::prelude::*;
use crate::ast::BinOp;
use crate::text::{dec, push_str, push_usize};

verus! {

/// Evaluation status.
#[derive(Debug, Clone, Copy, PartialEq, Eq, Structural)]
pub enum EvalStatus {
    Success,
    Error,
    Break,
    Return,
}

/// Structured evaluation errors.
#[derive(Debug, Clone, PartialEq)]
pub enum EvalError {
    /// A language feature that this interpreter does not implement.
    UnsupportedFeature(&'static str),
    /// A variable declaration in expression position.
    VarDeclAsExpression,
    /// An expression form the evaluator does not handle.
    UnsupportedExpression,
    /// Division or remainder by zero.
    DivisionByZero,
    /// `++` on something other than two strings.
    ConcatNonString,
    /// Call of an undefined function.
    UnknownFunction(String),
    /// Call of a value that is not a function.
    NotAFunction,
    /// Wrong number of arguments.
    ArgumentCountMismatch { expected: usize, got: usize },
    /// `break` outside a loop.
    BreakOutsideLoop,
    /// Assignment to an undefined variable.
    UnknownVariable(String),
    /// Assignment to something that is not a variable.
    AssignTargetInvalid,
    /// `for .. in` without an iterable.
    ForInMissingIterable,
    /// `for .. from` without a start.
    ForRangeMissingStart,
    /// `for .. from` without an end.
    ForRangeMissingEnd,
    /// A method that the receiver's type does not have.
    UnknownMethod { receiver_type: String, method: String },
    /// Indexing a value that is not an array.
    IndexNonArray { actual: String },
    /// Slicing a value that is not an array.
    SliceNonArray { actual: String },
    /// `nil` where a non-nullable type is required.
    TypeMismatch { expected: String, got: String },
    /// `x?` where `x` is `nil`.
    UnwrapOnNil,
}

/// The user-facing message of an evaluation error.
pub open spec fn eval_error_message(e: EvalError) -> Seq<char> {
    match e {
        EvalError::UnsupportedFeature(s) => s@ + " 暂未在 v0.1 解释器中实现"@,
        EvalError::VarDeclAsExpression => "VarDecl 不能作为表达式使用"@,
        EvalError::UnsupportedExpression => "不支持的表达式"@,
        EvalError::DivisionByZero => "除数为零"@,
        EvalError::ConcatNonString => "concat 运算符仅支持字符串"@,
        EvalError::UnknownFunction(name) => "未找到函数 '"@ + name@ + "'"@,
        EvalError::NotAFunction => "尝试调用非函数值"@,
        EvalError::ArgumentCountMismatch { expected, got } => "参数数量不匹配：期望 "@ + dec(
            expected as nat,
        ) + " 个，实参 "@ + dec(got as nat) + " 个"@,
        EvalError::BreakOutsideLoop => "break 出现在循环外"@,
        EvalError::UnknownVariable(name) => "未定义变量 '"@ + name@ + "'"@,
        EvalError::AssignTargetInvalid => "赋值目标必须是变量"@,
        EvalError::ForInMissingIterable => "for-in 缺少 iterable 表达式"@,
        EvalError::ForRangeMissingStart => "for-range 缺少 start 表达式"@,
        EvalError::ForRangeMissingEnd => "for-range 缺少 end 表达式"@,
        EvalError::UnknownMethod { receiver_type, method } => receiver_type@ + " 类型没有方法 '"@
            + method@ + "'"@,
        EvalError::IndexNonArray { actual } => "不能用非数组类型（"@ + actual@ + "）做索引"@,
        EvalError::SliceNonArray { actual } => "不能用非数组类型（"@ + actual@ + "）做切片"@,
        EvalError::TypeMismatch { expected, got } => "类型不匹配：期望 "@ + expected@ + "，得到 "@
            + got@,
        EvalError::UnwrapOnNil => "unwrap 遇到 nil 值"@,
    }
}


impl EvalError {
    /// The message that `Display` shows for this error.
    pub fn message(&self) -> (r: String)
        ensures
            r@ == eval_error_message(*self),
    {
        let mut s = String::new();
        match self {
            EvalError::UnsupportedFeature(f) => {
                push_str(&mut s, f);
                push_str(&mut s, " 暂未在 v0.1 解释器中实现");
            },
            EvalError::VarDeclAsExpression => push_str(&mut s, "VarDecl 不能作为表达式使用"),
            EvalError::UnsupportedExpression => push_str(&mut s, "不支持的表达式"),
            EvalError::DivisionByZero => push_str(&mut s, "除数为零"),
            EvalError::ConcatNonString => push_str(&mut s, "concat 运算符仅支持字符串"),
            EvalError::UnknownFunction(name) => {
                push_str(&mut s, "未找到函数 '");
                push_str(&mut s, name.as_str());
                push_str(&mut s, "'");
            },
            EvalError::NotAFunction => push_str(&mut s, "尝试调用非函数值"),
            EvalError::ArgumentCountMismatch { expected, got } => {
                push_str(&mut s, "参数数量不匹配：期望 ");
                push_usize(&mut s, *expected);
                push_str(&mut s, " 个，实参 ");
                push_usize(&mut s, *got);
                push_str(&mut s, " 个");
            },
            EvalError::BreakOutsideLoop => push_str(&mut s, "break 出现在循环外"),
            EvalError::UnknownVariable(name) => {
                push_str(&mut s, "未定义变量 '");
                push_str(&mut s, name.as_str());
                push_str(&mut s, "'");
            },
            EvalError::AssignTargetInvalid => push_str(&mut s, "赋值目标必须是变量"),
            EvalError::ForInMissingIterable => push_str(&mut s, "for-in 缺少 iterable 表达式"),
            EvalError::ForRangeMissingStart => push_str(&mut s, "for-range 缺少 start 表达式"),
            EvalError::ForRangeMissingEnd => push_str(&mut s, "for-range 缺少 end 表达式"),
            EvalError::UnknownMethod { receiver_type, method } => {
                push_str(&mut s, receiver_type.as_str());
                push_str(&mut s, " 类型没有方法 '");
                push_str(&mut s, method.as_str());
                push_str(&mut s, "'");
            },
            EvalError::IndexNonArray { actual } => {
                push_str(&mut s, "不能用非数组类型（");
                push_str(&mut s, actual.as_str());
                push_str(&mut s, "）做索引");
            },
            EvalError::SliceNonArray { actual } => {
                push_str(&mut s, "不能用非数组类型（");
                push_str(&mut s, actual.as_str());
                push_str(&mut s, "）做切片");
            },
            EvalError::TypeMismatch { expected, got } => {
                push_str(&mut s, "类型不匹配：期望 ");
                push_str(&mut s, expected.as_str());
                push_str(&mut s, "，得到 ");
                push_str(&mut s, got.as_str());
            },
            EvalError::UnwrapOnNil => push_str(&mut s, "unwrap 遇到 nil 值"),
        }
        s
    }
}

/// The exact result of an integer `+`, `-` or `*` (none for other operators).
pub open spec fn int_op(op: BinOp, a: int, b: int) -> Option<int> {
    match op {
        BinOp::Add => Some(a + b),
        BinOp::Sub => Some(a - b),
        BinOp::Mul => Some(a * b),
        _ => None,
    }
}

pub open spec fn fits_i64(v: int) -> bool {
    i64::MIN <= v <= i64::MAX
}

/// `+`, `-`, `*` on `i64`, or none when the operator is another one or the result overflows.
pub open spec fn checked_int_op(op: BinOp, a: i64, b: i64) -> Option<i64> {
    match int_op(op, a as int, b as int) {
        Some(v) => if fits_i64(v) {
            Some(v as i64)
        } else {
            None
        },
        None => None,
    }
}

/// Integer arithmetic that reports overflow: `Some(v)` when the result fits, `None` otherwise
/// (and for operators other than `+`, `-`, `*`).
pub fn checked_int_arith(op: BinOp, a: i64, b: i64) -> (r: Option<i64>)
    ensures
        r == checked_int_op(op, a, b),
{
    match op {
        BinOp::Add => a.checked_add(b),
        BinOp::Sub => a.checked_sub(b),
        BinOp::Mul => a.checked_mul(b),
        _ => None,
    }
}

/// Integer arithmetic as debug builds perform it: the exact result, which must fit
/// (an overflow, or an operator other than `+`, `-`, `*`, aborts there).
pub fn int_arith(op: BinOp, a: i64, b: i64) -> (r: i64)
    requires
        checked_int_op(op, a, b) is Some,
    ensures
        Some(r) == checked_int_op(op, a, b),
        int_op(op, a as int, b as int) == Some(r as int),
{
    match checked_int_arith(op, a, b) {
        Some(v) => v,
        None => {
            proof {
                assert(false);
            }
            0
        },
    }
}

/// Integer negation as debug builds perform it (`i64::MIN` has no negation and aborts there).
pub fn int_neg(a: i64) -> (r: i64)
    requires
        a != i64::MIN,
    ensures
        r == -a,
{
    -a
}

} // verus!
