use lib::ast::{field_decl, param, variant_decl, BinOp, UnOp};
use lib::interp::{checked_int_arith, int_arith, int_neg, EvalError, EvalStatus};
use lib::value::ValueKind;

#[test]
fn test_checked_int_arith_overflow() {
    assert_eq!(checked_int_arith(BinOp::Add, i64::MAX, 1), None);
    assert_eq!(checked_int_arith(BinOp::Sub, i64::MIN, 1), None);
    assert_eq!(checked_int_arith(BinOp::Mul, i64::MAX, 2), None);
    assert_eq!(checked_int_arith(BinOp::Add, 5, 3), Some(8));
    assert_eq!(checked_int_arith(BinOp::Mul, -3, 7), Some(-21));
    assert_eq!(checked_int_arith(BinOp::Sub, 0, 5), Some(-5));
}

#[test]
fn test_a1_eval_error_display() {
    let tm = EvalError::TypeMismatch {
        expected: "int".to_string(),
        got: "nil".to_string(),
    };
    assert_eq!(tm.message(), "类型不匹配：期望 int，得到 nil");
    assert_eq!(EvalError::UnwrapOnNil.message(), "unwrap 遇到 nil 值");
}

#[test]
fn checked_arith_other_operators_are_none() {
    assert_eq!(checked_int_arith(BinOp::Div, 6, 3), None);
    assert_eq!(checked_int_arith(BinOp::Lt, 1, 2), None);
    assert_eq!(checked_int_arith(BinOp::Mul, i64::MIN, -1), None);
    assert_eq!(checked_int_arith(BinOp::Add, i64::MIN, i64::MAX), Some(-1));
}

#[test]
fn int_arith_exact_results() {
    assert_eq!(int_arith(BinOp::Add, 1, 2), 3);
    assert_eq!(int_arith(BinOp::Sub, 2, 5), -3);
    assert_eq!(int_arith(BinOp::Mul, -4, -4), 16);
    assert_eq!(int_neg(7), -7);
    assert_eq!(int_neg(i64::MAX), -i64::MAX);
}

#[test]
fn eval_error_messages() {
    assert_eq!(EvalError::DivisionByZero.message(), "除数为零");
    assert_eq!(
        EvalError::ArgumentCountMismatch { expected: 2, got: 3 }.message(),
        "参数数量不匹配：期望 2 个，实参 3 个"
    );
    assert_eq!(EvalError::UnknownVariable("x".to_string()).message(), "未定义变量 'x'");
    assert_eq!(EvalStatus::Success, EvalStatus::Success);
    assert_ne!(EvalStatus::Error, EvalStatus::Return);
}

#[test]
fn value_kind_names() {
    assert_eq!(ValueKind::Int.as_str(), "int");
    assert_eq!(ValueKind::Float.as_str(), "float");
    assert_eq!(ValueKind::Bool.as_str(), "bool");
    assert_eq!(ValueKind::String.as_str(), "string");
    assert_eq!(ValueKind::Array.as_str(), "array");
    assert_eq!(ValueKind::Nil.as_str(), "nil");
}

#[test]
fn operator_symbols() {
    assert_eq!(BinOp::Add.symbol(), "+");
    assert_eq!(BinOp::Neq.symbol(), "!=");
    assert_eq!(BinOp::Shl.symbol(), "<<");
    assert_eq!(UnOp::Neg.symbol(), "-");
    assert_eq!(UnOp::Not.symbol(), "!");
}

#[test]
fn declaration_records() {
    let f = field_decl("x".to_string(), "int".to_string());
    assert_eq!((f.name.as_str(), f.ty_name.as_deref()), ("x", Some("int")));
    let v = variant_decl("Some".to_string(), None);
    assert_eq!((v.name.as_str(), v.payload.is_none()), ("Some", true));
    let p = param("a".to_string(), Some("str".to_string()));
    assert_eq!((p.name.as_str(), p.ty_name.as_deref()), ("a", Some("str")));
}

#[test]
fn every_eval_error_has_its_message() {
    let s = |x: &str| x.to_string();
    let cases = vec![
        (EvalError::UnsupportedFeature("go"), "go 暂未在 v0.1 解释器中实现"),
        (EvalError::VarDeclAsExpression, "VarDecl 不能作为表达式使用"),
        (EvalError::UnsupportedExpression, "不支持的表达式"),
        (EvalError::DivisionByZero, "除数为零"),
        (EvalError::ConcatNonString, "concat 运算符仅支持字符串"),
        (EvalError::UnknownFunction(s("f")), "未找到函数 'f'"),
        (EvalError::NotAFunction, "尝试调用非函数值"),
        (EvalError::ArgumentCountMismatch { expected: 0, got: 10 }, "参数数量不匹配：期望 0 个，实参 10 个"),
        (EvalError::BreakOutsideLoop, "break 出现在循环外"),
        (EvalError::UnknownVariable(s("v")), "未定义变量 'v'"),
        (EvalError::AssignTargetInvalid, "赋值目标必须是变量"),
        (EvalError::ForInMissingIterable, "for-in 缺少 iterable 表达式"),
        (EvalError::ForRangeMissingStart, "for-range 缺少 start 表达式"),
        (EvalError::ForRangeMissingEnd, "for-range 缺少 end 表达式"),
        (EvalError::UnknownMethod { receiver_type: s("int"), method: s("len") }, "int 类型没有方法 'len'"),
        (EvalError::IndexNonArray { actual: s("bool") }, "不能用非数组类型（bool）做索引"),
        (EvalError::SliceNonArray { actual: s("nil") }, "不能用非数组类型（nil）做切片"),
        (EvalError::TypeMismatch { expected: s("int"), got: s("string") }, "类型不匹配：期望 int，得到 string"),
        (EvalError::UnwrapOnNil, "unwrap 遇到 nil 值"),
    ];
    for (e, msg) in cases {
        assert_eq!(e.message(), msg);
    }
}
