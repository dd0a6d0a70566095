use rpn::catalog::{EvalContext, FuCoOpDef};
use rpn::error::{ExErr, LexErr, ParErr, RpnError};
use rpn::eval::{EvalStep, HostCall};
use rpn::expression::Expression;
use rpn::value::{EVar, FloatCall, FloatOp};
use std::f64::consts::{E, PI};

fn to_float(v: &EVar) -> f64 {
    match v {
        EVar::IVal(i) => *i as f64,
        EVar::BVal(b) => {
            if *b {
                1.0
            } else {
                0.0
            }
        }
        EVar::FVal(bits) => f64::from_bits(*bits),
        EVar::SVal(s) => s.parse().unwrap_or(f64::NAN),
    }
}

fn float(f: f64) -> EVar {
    EVar::FVal(f.to_bits())
}

fn float_answer(call: &FloatCall) -> EVar {
    let a = to_float(&call.lhs);
    let b = to_float(&call.rhs);
    match call.op {
        FloatOp::Add => float(a + b),
        FloatOp::Sub => float(a - b),
        FloatOp::Mul => float(a * b),
        FloatOp::Div => float(a / b),
        FloatOp::Eq => EVar::BVal(a == b),
        FloatOp::Ne => EVar::BVal(a != b),
        FloatOp::Le => EVar::BVal(a <= b),
        FloatOp::Lt => EVar::BVal(a < b),
        FloatOp::Ge => EVar::BVal(a >= b),
        FloatOp::Gt => EVar::BVal(a > b),
        FloatOp::Max => float(if b > a { b } else { a }),
        FloatOp::Min => float(if b < a { b } else { a }),
        FloatOp::PowF => float(a.powf(b)),
        FloatOp::PowI => match call.rhs {
            EVar::IVal(n) => float(a.powi(n as i32)),
            _ => float(f64::NAN),
        },
        FloatOp::Sin => float(a.sin()),
        FloatOp::Cos => float(a.cos()),
        FloatOp::Tan => float(a.tan()),
        FloatOp::Exp => float(a.exp()),
        FloatOp::Ln => float(a.ln()),
        FloatOp::Log10 => float(a.log10()),
        FloatOp::Sqrt => float(a.sqrt()),
        FloatOp::Cbrt => float(a.cbrt()),
        FloatOp::Trunc => EVar::IVal(a as i64),
        FloatOp::ToFloat => float(a),
    }
}

/// Evaluates, answering the library's calls: `var(x)` of the context returns `x`.
fn evaluate(e: &mut Expression) -> Result<Option<EVar>, RpnError> {
    let mut answers: Vec<EVar> = Vec::new();
    loop {
        match e.eval(&answers) {
            EvalStep::Done(r) => return r,
            EvalStep::Need(call) => {
                let a = match &call {
                    HostCall::Float(fc) => float_answer(fc),
                    HostCall::User { args, .. } => args[0].clone(),
                    HostCall::Clock => EVar::IVal(1_700_000_000),
                };
                answers.push(a);
            }
        }
    }
}

fn eval_str(s: &str) -> Result<Option<EVar>, RpnError> {
    let mut e = Expression::new(s, None);
    evaluate(&mut e)
}

fn user_context() -> EvalContext {
    EvalContext {
        user_fns: vec![FuCoOpDef {
            name: String::from("var"),
            params: Some(1),
        }],
    }
}

enum Want {
    I(i64),
    F(f64, f64),
    B(bool),
}

fn check(ctx: u32, expr: &str, want: Want) {
    let context = user_context();
    let mut e = Expression::new(expr, if ctx == 1 { Some(&context) } else { None });
    let res = evaluate(&mut e);
    match (res, want) {
        (Ok(Some(EVar::IVal(i))), Want::I(w)) => assert!(i == w, "test failed for {} {:?} {:?}", expr, i, w),
        (Ok(Some(EVar::BVal(b))), Want::B(w)) => assert!(b == w, "test failed for {} {:?} {:?}", expr, b, w),
        (Ok(Some(EVar::FVal(bits))), Want::F(w, prec)) => {
            let f = f64::from_bits(bits);
            assert!((f - w).abs() <= prec, "test failed for {} {:?} {:?}", expr, f, w)
        }
        (Ok(Some(v)), _) => panic!("eval returned wrong type for {} {:?}", expr, v),
        (Ok(None), _) => panic!("test failed for {} None", expr),
        (Err(e), _) => panic!("'{}' failed with {:?}", expr, e),
    }
}

#[test]
fn rpn_test() {
    let cases: Vec<(u32, &str, Want)> = vec![
        (0, "pi", Want::F(PI, 0.0)),
        (0, "π", Want::F(PI, 0.0)),
        (0, "phi", Want::F(1.618_033_988_749_894_848_204_586, 0.0)),
        (0, "Φ", Want::F(1.618_033_988_749_894_848_204_586, 0.0)),
        (0, "rho", Want::F(1.324_717_957_244_746_025_960_908, 0.0)),
        (0, "ρ", Want::F(1.324_717_957_244_746_025_960_908, 0.0)),
        (0, "e", Want::F(E, 0.0)),
        (0, "e*ρ*Φ*π", Want::F(18.304396652610638, 0.0)),
        (0, "me*c*c", Want::F(8.187_105_776_823_886e-14, 0.0)),
        (0, "mn*c*c", Want::F(1.505_349_762_872_151e-10, 1e-14)),
        (0, "mp*c*c", Want::F(1.503_277_615_985_125_6e-10, 0.0)),
        (0, "true", Want::B(true)),
        (0, "false", Want::B(false)),
        (0, "0xFF", Want::I(255)),
        (0, "0xFF-0xff", Want::I(0)),
        (0, "max(!1+4,2,3*4)", Want::I(12)),
        (0, "max(!1+4,2,3)", Want::I(4)),
        (0, "max(1,2,3)", Want::I(3)),
        (0, "min(1,2,3)", Want::I(1)),
        (0, "max(1,2,3.)", Want::F(3., 0.0)),
        (0, "min(1.,2,3)", Want::F(1., 0.0)),
        (0, "max(-1,2,3.)", Want::F(3., 0.0)),
        (0, "min(-1.,2,3)", Want::F(-1., 0.0)),
        (0, "1-max((true == 1/2.),(-1),2,3,4,max(5,sin(pi)))", Want::F(-4., 0.0)),
        (0, "cos(pi)", Want::F(-1., 0.0)),
        (0, "avg(1,2,1)", Want::F(1.3333333333333333, 0.0)),
        (0, "pow(1,0)", Want::I(1)),
        (0, "pow(pi,0)", Want::I(1)),
        (0, "pow(1,0.0)", Want::F(1.0, 0.0)),
        (0, "pow(2,4)", Want::I(16)),
        (0, "pow(2,-4)", Want::F(0.0625, 0.0)),
        (0, "pow(pi,3.5)", Want::F(54.95719450423931, 0.0)),
        (0, "pow((1/e),1.95)", Want::F(0.1422740715865136, 0.0)),
        (0, "pow(0,0)", Want::I(1)),
        (0, "pow(0,1.95)", Want::F(0., 0.0)),
        (0, "pow(0,3)", Want::I(0)),
        (0, "!true", Want::B(false)),
        (0, "!false", Want::B(true)),
        (0, "!pi", Want::B(false)),
        (0, "!0", Want::B(true)),
        (0, "!0.0", Want::B(true)),
        (0, "!1000", Want::B(false)),
        (0, "false == !true", Want::B(true)),
        (0, "false == true", Want::B(false)),
        (0, "true == true", Want::B(true)),
        (0, "pi == true", Want::B(false)),
        (0, "pi == 1", Want::B(false)),
        (0, "8 == 4*2", Want::B(true)),
        (0, "false != true", Want::B(true)),
        (0, "true != true", Want::B(false)),
        (0, "pi != true", Want::B(true)),
        (0, "pi != 1", Want::B(true)),
        (0, "8 != 4*2", Want::B(false)),
        (0, "!(false == true)", Want::B(true)),
        (0, "!(true == true)", Want::B(false)),
        (0, "!(pi == true)", Want::B(true)),
        (0, "!(pi == 1)", Want::B(true)),
        (0, "!(8 == 4*2)", Want::B(false)),
        (0, "sqrt(16)", Want::F(4., 0.0)),
        (0, "sqrt(c*c)", Want::F(299_792_458.0, 0.0)),
        (0, "cbrt(8.0)", Want::F(2.0, 0.0)),
        (0, "cbrt(c*c*c)", Want::F(299_792_458.0, 0.0)),
        (0, "ln(exp(1.0))", Want::F(1.0, 0.0)),
        (0, "log10(1000.)", Want::F(3.0, 0.0)),
        (0, "tan(0)", Want::F(0., 0.0)),
        (0, "tan(pi)", Want::F(0., 1e-15)),
        (0, "~0", Want::I(-1)),
        (0, "~8 & 0xffff", Want::I(0xfff7)),
        (0, "5|2", Want::I(7)),
        (0, "5>2", Want::B(true)),
        (0, "5*5<200.", Want::B(true)),
        (0, "5>=5.0", Want::B(true)),
        (0, "5*5<=25", Want::B(true)),
        (0, "2 << 4", Want::I(32)),
        (0, "8 >> 3", Want::I(1)),
        (0, "16.>> 3", Want::I(2)),
        (0, "5^1", Want::I(4)),
        (0, "5^2", Want::I(7)),
        (0, "1-3+6-24+2", Want::I(-18)),
        (0, "1-3-6", Want::I(-8)),
        (0, "(1+sqrt(5))/2", Want::F(1.618_033_988_749_894_848_204_586, 0.0)),
        (
            0,
            "pow((9+sqrt(69))/18,1/3.)+pow((9-sqrt(69))/18,1/3.)",
            Want::F(1.324_717_957_244_746_025_960_908, 0.0),
        ),
        (0, "sin(\"1.57079632679489661923132169163975144\")", Want::F(1.0, 0.0)),
        (0, "now()-now()", Want::I(0)),
        (1, "var(42)", Want::I(42)),
        (1, "var(42.42)", Want::F(42.42, 0.0)),
    ];
    for (ctx, expr, want) in cases {
        check(ctx, expr, want);
    }
}

#[test]
fn division_by_zero_is_rejected() {
    for s in ["7/0", "7/0.0", "7/false", "7/ \"x\"", "2.5/0", "true/0", "7/ \"3\""] {
        assert!(
            matches!(eval_str(s), Err(RpnError::Exec(ExErr::EvalDiv0))),
            "{} should fail with a division by zero",
            s
        );
    }
    // the dividend is never looked at
    assert!(matches!(eval_str("\"abc\"/0"), Err(RpnError::Exec(ExErr::EvalDiv0))));
}

#[test]
fn integer_division_truncates() {
    assert!(matches!(eval_str("7/2"), Ok(Some(EVar::IVal(3)))));
    assert!(matches!(eval_str("-7/2"), Ok(Some(EVar::IVal(-3)))));
    assert!(matches!(eval_str("7/true"), Ok(Some(EVar::IVal(7)))));
}

#[test]
fn subtraction_is_left_associative() {
    assert!(matches!(eval_str("1-3+6-24+2"), Ok(Some(EVar::IVal(-18)))));
    assert!(matches!(eval_str("1-3-6"), Ok(Some(EVar::IVal(-8)))));
    assert!(matches!(eval_str("100/10/5"), Ok(Some(EVar::IVal(2)))));
}

#[test]
fn unary_operator_binds_to_next_operand() {
    assert!(matches!(eval_str("max(!1+4,2,3*4)"), Ok(Some(EVar::IVal(12)))));
    assert!(matches!(eval_str("-2*3"), Ok(Some(EVar::IVal(-6)))));
    assert!(matches!(eval_str("2*(-3)"), Ok(Some(EVar::IVal(-6)))));
}

#[test]
fn hexadecimal_literals() {
    assert!(matches!(eval_str("0xFF"), Ok(Some(EVar::IVal(255)))));
    assert!(matches!(eval_str("0xFF-0xff"), Ok(Some(EVar::IVal(0)))));
    assert!(matches!(eval_str("0X1F"), Ok(Some(EVar::IVal(31)))));
    assert!(matches!(eval_str("0XFF-0xff"), Ok(Some(EVar::IVal(0)))));
    assert!(matches!(
        Expression::new("0xfffffffffffffffff", None).res,
        Err(RpnError::AnaLex(LexErr::BadHex))
    ));
}

#[test]
fn power_edge_cases() {
    assert!(matches!(eval_str("pow(1,0)"), Ok(Some(EVar::IVal(1)))));
    assert!(matches!(eval_str("pow(pi,0)"), Ok(Some(EVar::IVal(1)))));
    assert!(matches!(eval_str("pow(2,4)"), Ok(Some(EVar::IVal(16)))));
    match eval_str("pow(2,-4)") {
        Ok(Some(EVar::FVal(bits))) => assert_eq!(f64::from_bits(bits), 0.0625),
        other => panic!("unexpected {:?}", other),
    }
    // integer powers wrap around in two's complement
    assert!(matches!(eval_str("pow(2,63)"), Ok(Some(EVar::IVal(i64::MIN)))));
    assert!(matches!(eval_str("pow(2,64)"), Ok(Some(EVar::IVal(0)))));
    assert!(matches!(eval_str("pow(3,true)"), Ok(Some(EVar::IVal(3)))));
    assert!(matches!(eval_str("pow(3,false)"), Ok(Some(EVar::IVal(1)))));
}

#[test]
fn variadic_aggregates() {
    assert!(matches!(eval_str("max(1,2,3)"), Ok(Some(EVar::IVal(3)))));
    match eval_str("min(1.,2,3)") {
        Ok(Some(EVar::FVal(bits))) => assert_eq!(f64::from_bits(bits), 1.0),
        other => panic!("unexpected {:?}", other),
    }
    match eval_str("avg(1,2,1)") {
        Ok(Some(EVar::FVal(bits))) => assert_eq!(f64::from_bits(bits), 1.3333333333333333),
        other => panic!("unexpected {:?}", other),
    }
    assert!(matches!(eval_str("max()"), Err(RpnError::Exec(ExErr::EvalMaxParam))));
    assert!(matches!(eval_str("min()"), Err(RpnError::Exec(ExErr::EvalMaxParam))));
    assert!(matches!(eval_str("avg()"), Err(RpnError::Exec(ExErr::EvalAvgParam))));
}

#[test]
fn parenthesis_matching_and_parameter_count() {
    for s in ["(1+2", "1+2)", "max(1,2", "((1)", ")"] {
        assert!(
            matches!(eval_str(s), Err(RpnError::Exec(ExErr::NotParsed))),
            "{} should not evaluate",
            s
        );
        let e = Expression::new(s, None);
        assert!(matches!(e.res, Err(RpnError::Parse(ParErr::MatchingPar))), "{}", s);
    }
    let e = Expression::new("sin(1,2)", None);
    assert!(matches!(e.res, Err(RpnError::Parse(ParErr::ParamNb))));
    let e = Expression::new("pow(1)", None);
    assert!(matches!(e.res, Err(RpnError::Parse(ParErr::ParamNb))));
    let e = Expression::new("1,2", None);
    assert!(matches!(e.res, Err(RpnError::Parse(ParErr::ParamSep))));
}

#[test]
fn string_argument_is_read_as_a_number() {
    match eval_str("sin(\"1.57079632679489661923\")") {
        Ok(Some(EVar::FVal(bits))) => assert_eq!(f64::from_bits(bits), 1.0),
        other => panic!("unexpected {:?}", other),
    }
    assert!(matches!(eval_str("\"12\"+1"), Ok(Some(EVar::IVal(13)))));
    assert!(matches!(eval_str("\"abc\"+1"), Ok(Some(EVar::IVal(1)))));
}

#[test]
fn evaluation_is_repeatable() {
    for s in ["1-3+6-24+2", "max(1,2.5,3)", "pow(2,-4)", "7/0", "sqrt(2)*sqrt(2)"] {
        let mut e = Expression::new(s, None);
        let first = format!("{:?}", evaluate(&mut e));
        let second = format!("{:?}", evaluate(&mut e));
        assert_eq!(first, second, "{}", s);
    }
}

#[test]
fn lexical_errors() {
    let cases = [
        ("1 # 2", LexErr::BadStart),
        ("foo(1)", LexErr::FunctionOrConstNotFound),
        ("pi.", LexErr::FunctionOrConst),
        ("0a", LexErr::BadHexInit),
        ("12a", LexErr::BadSigBdp),
        ("1.5a", LexErr::BadSigAdp),
        ("1ea", LexErr::BadExpSign),
        ("1e+a", LexErr::BadExpASign),
        ("1e5a", LexErr::BadExpVal),
        ("0x1g", LexErr::BadHex),
        ("1+\"a\"", LexErr::QuoteAfterOp),
        ("1 = 2", LexErr::BadOperatorShort),
        ("1 =+ 2", LexErr::BadOperatorLong),
        ("\"abc", LexErr::UnclosedString),
        ("1+\"ab", LexErr::QuoteAfterOp),
    ];
    for (s, want) in cases {
        let e = Expression::new(s, None);
        match e.res {
            Err(RpnError::AnaLex(got)) => assert_eq!(got, want, "{}", s),
            other => panic!("{} gave {:?}", s, other),
        }
    }
}

#[test]
fn execution_errors() {
    assert!(matches!(eval_str(""), Err(RpnError::Exec(ExErr::WrongStackLen))));
    assert!(matches!(eval_str("1 2"), Err(RpnError::Exec(ExErr::WrongStackLen))));
    assert!(matches!(eval_str("\"abc\""), Err(RpnError::Exec(ExErr::StartWrongToken))));
    assert!(matches!(eval_str("*2"), Err(RpnError::Exec(ExErr::GetOperandStart))));
    assert!(matches!(eval_str("2*"), Err(RpnError::Exec(ExErr::GetOperandStart))));
    assert!(matches!(eval_str("1+2*"), Err(RpnError::Exec(ExErr::GetOperandMissing))));
}

#[test]
fn integer_arithmetic_wraps() {
    assert!(matches!(eval_str("9223372036854775807+1"), Ok(Some(EVar::IVal(i64::MIN)))));
    assert!(matches!(eval_str("3000000000*4000000000"), Ok(Some(EVar::IVal(-6446744073709551616)))));
    assert!(matches!(eval_str("1 << 65"), Ok(Some(EVar::IVal(2)))));
    assert!(matches!(
        Expression::new("9223372036854775808", None).res,
        Err(RpnError::AnaLex(LexErr::BadSigBdp))
    ));
}

#[test]
fn displays() {
    let e = Expression::new("max(1,-2)*3", None);
    assert_eq!(e.display_tokenized(), "max ( 1 , - 2 ) * 3 ");
    assert_eq!(e.display_parsed(), "1 2 -(un) max(2) 3 *(bi) ");
    let mut e = Expression::new("6*7", None);
    let _ = evaluate(&mut e);
    assert_eq!(e.result(), Some(String::from("42")));
    let mut e = Expression::new("-6*7", None);
    let _ = evaluate(&mut e);
    assert_eq!(e.result(), Some(String::from("-42")));
    let mut e = Expression::new("1<2", None);
    let _ = evaluate(&mut e);
    assert_eq!(e.result(), Some(String::from("true")));
    let mut e = Expression::new("1.5", None);
    let _ = evaluate(&mut e);
    assert_eq!(e.result(), None);
    let e = Expression::new("(1", None);
    assert_eq!(e.result(), Some(String::from("rpn parsing error")));
}

#[test]
fn clock_and_host_functions() {
    let mut e = Expression::new("now()", None);
    assert!(matches!(evaluate(&mut e), Ok(Some(EVar::IVal(1_700_000_000)))));
    let context = user_context();
    let mut e = Expression::new("var(2)+var(3)", Some(&context));
    assert!(matches!(evaluate(&mut e), Ok(Some(EVar::IVal(5)))));
    let e = Expression::new("var(1,2)", Some(&context));
    assert!(matches!(e.res, Err(RpnError::Parse(ParErr::ParamNb))));
}

#[test]
fn unicode_characters() {
    assert!(matches!(Expression::new("\u{663}", None).res, Err(RpnError::AnaLex(LexErr::BadSigBdp))));
    assert!(matches!(
        Expression::new("\u{e9}t\u{e9}", None).res,
        Err(RpnError::AnaLex(LexErr::FunctionOrConstNotFound))
    ));
    match eval_str("2*\u{3c1}") {
        Ok(Some(EVar::FVal(bits))) => assert_eq!(f64::from_bits(bits), 2.0 * 1.324_717_957_244_746_025_960_908),
        other => panic!("unexpected {:?}", other),
    }
    let e = Expression::new("\"\u{e9}t\u{e9} \" + 1", None);
    assert_eq!(e.display_tokenized(), "\"\u{e9}t\u{e9} \" + 1 ");
}

enum Tree {
    Num(i64),
    Op(char, Box<Tree>, Box<Tree>),
    Neg(Box<Tree>),
}

fn tree_text(t: &Tree) -> String {
    match t {
        Tree::Num(n) => format!("{}", n),
        Tree::Op(c, a, b) => format!("({}{}{})", tree_text(a), c, tree_text(b)),
        Tree::Neg(a) => format!("(-{})", tree_text(a)),
    }
}

fn tree_value(t: &Tree) -> i64 {
    match t {
        Tree::Num(n) => *n,
        Tree::Op('+', a, b) => tree_value(a).wrapping_add(tree_value(b)),
        Tree::Op('-', a, b) => tree_value(a).wrapping_sub(tree_value(b)),
        Tree::Op(_, a, b) => tree_value(a).wrapping_mul(tree_value(b)),
        Tree::Neg(a) => 0i64.wrapping_sub(tree_value(a)),
    }
}

fn random_tree(seed: &mut u64, depth: u32) -> Tree {
    *seed = seed.wrapping_mul(6364136223846793005).wrapping_add(1442695040888963407);
    let r = *seed >> 33;
    if depth == 0 || r % 4 == 0 {
        return Tree::Num((r % 1000) as i64);
    }
    if r % 7 == 1 {
        return Tree::Neg(Box::new(random_tree(seed, depth - 1)));
    }
    let op = ['+', '-', '*'][(r % 3) as usize];
    let a = random_tree(seed, depth - 1);
    let b = random_tree(seed, depth - 1);
    Tree::Op(op, Box::new(a), Box::new(b))
}

#[test]
fn agrees_with_a_tree_evaluator() {
    let mut seed: u64 = 42;
    for _ in 0..300 {
        let t = random_tree(&mut seed, 5);
        let text = tree_text(&t);
        match eval_str(&text) {
            Ok(Some(EVar::IVal(v))) => assert_eq!(v, tree_value(&t), "{}", text),
            other => panic!("{} gave {:?}", text, other),
        }
    }
}

#[test]
fn operators_are_shortened_when_two_characters_name_none() {
    assert!(matches!(eval_str("1+-2"), Ok(Some(EVar::IVal(-1)))));
    assert!(matches!(eval_str("1<=2"), Ok(Some(EVar::BVal(true)))));
    assert!(matches!(eval_str("3<<1"), Ok(Some(EVar::IVal(6)))));
    let e = Expression::new("1+-2", None);
    assert_eq!(e.display_tokenized(), "1 + - 2 ");
}

#[test]
fn boolean_exponent_and_large_powers() {
    assert!(matches!(eval_str("pow(true,true)"), Ok(Some(EVar::BVal(true)))));
    assert!(matches!(eval_str("pow(7,false)"), Ok(Some(EVar::IVal(1)))));
    match eval_str("pow(\"ab\",true)") {
        Ok(Some(EVar::SVal(s))) => assert_eq!(s, "ab"),
        other => panic!("unexpected {:?}", other),
    }
    match eval_str("pow(2.5,true)") {
        Ok(Some(EVar::FVal(bits))) => assert_eq!(f64::from_bits(bits), 2.5),
        other => panic!("unexpected {:?}", other),
    }
    assert!(matches!(eval_str("pow(0,4294967296)"), Ok(Some(EVar::IVal(0)))));
    assert!(matches!(eval_str("pow(2,4294967296)"), Ok(Some(EVar::IVal(0)))));
    assert!(matches!(eval_str("pow(1,9223372036854775807)"), Ok(Some(EVar::IVal(1)))));
    assert!(matches!(eval_str("pow(-1,9223372036854775807)"), Ok(Some(EVar::IVal(-1)))));
    assert!(matches!(eval_str("pow(3,40)"), Ok(Some(EVar::IVal(-6289078614652622815)))));
}

#[test]
fn strings_compare_unequal_to_everything() {
    assert!(matches!(eval_str("\"1\" == 1"), Ok(Some(EVar::BVal(false)))));
    assert!(matches!(eval_str("\"a\" == \"a\""), Ok(Some(EVar::BVal(false)))));
    assert!(matches!(eval_str("\"a\" != \"a\""), Ok(Some(EVar::BVal(true)))));
    assert!(matches!(eval_str("\"1\" <= 5"), Ok(Some(EVar::BVal(false)))));
    assert!(matches!(eval_str("2.5 > \"1\""), Ok(Some(EVar::BVal(false)))));
}

#[test]
fn reparse_keeps_the_lexed_tokens() {
    let mut e = Expression::new("(1+2", None);
    assert!(matches!(e.parse("anything"), Err(RpnError::Parse(ParErr::MatchingPar))));
    assert!(e.tokenized && !e.parsed);
    let mut e = Expression::new("sin(1,2)", None);
    assert!(matches!(e.parse("sin(1,2)"), Err(RpnError::Parse(ParErr::ParamNb))));
    let mut e = Expression::new("1,2", None);
    assert!(matches!(e.parse("1,2"), Err(RpnError::Parse(ParErr::ParamSep))));
    let mut e = Expression::new("2*(3+4)", None);
    let shown = e.display_parsed();
    assert!(e.parse("x").is_ok());
    assert_eq!(e.display_parsed(), shown);
    let _ = evaluate(&mut e);
    assert_eq!(e.display_parsed(), shown);
}
