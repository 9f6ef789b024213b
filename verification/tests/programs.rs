use nanovm::ast::{BinaryOp, Expr, Func, Value};
use nanovm::bytecode::{
    ByteCodeFunction, ByteCodeOp, ByteCodeValue, Label, LabelKind, RelativeOperation,
};
use nanovm::codegen::{
    generate_function_bytecode, generate_function_code, CompileError, Context, Generator,
};
use nanovm::machine::{ArithmeticOp, Fault};
use nanovm::runtime::{LinkError, Runtime, Status, Step};

fn num(x: f64) -> Expr {
    Expr::Value(Value::Num(x.to_bits()))
}

fn text(s: &str) -> Expr {
    Expr::Value(Value::Str(s.to_string()))
}

fn var(name: &str) -> Expr {
    Expr::LocalVar(name.to_string())
}

fn null() -> Expr {
    Expr::Value(Value::Null)
}

fn bx(e: Expr) -> Box<Expr> {
    Box::new(e)
}

fn func(name: &str, args: &[&str], body: Expr) -> Func {
    Func { name: name.to_string(), args: args.iter().map(|a| a.to_string()).collect(), body }
}

fn number(x: f64) -> ByteCodeValue {
    ByteCodeValue::Number(x.to_bits())
}

fn compute(op: ArithmeticOp, lhs: u64, rhs: u64) -> u64 {
    let l = f64::from_bits(lhs);
    let r = f64::from_bits(rhs);
    let v = match op {
        ArithmeticOp::Add => l + r,
        ArithmeticOp::Sub => l - r,
        ArithmeticOp::Mul => l * r,
        ArithmeticOp::Div => l / r,
    };
    v.to_bits()
}

fn render(value: &ByteCodeValue) -> String {
    match value {
        ByteCodeValue::Number(bits) => format!("{}", f64::from_bits(*bits)),
        ByteCodeValue::Boolean(b) => format!("{}", b),
        ByteCodeValue::String(s) => format!("{}", s),
        ByteCodeValue::List(items) => format!("{:?}", items),
        ByteCodeValue::Return => format!("Return"),
    }
}

fn drive(runtime: &mut Runtime) -> (Vec<String>, Result<Option<ByteCodeValue>, Fault>) {
    let mut printed = Vec::new();
    loop {
        match runtime.execute_program(100_000) {
            Err(error) => return (printed, Err(error.kind)),
            Ok(Status::Finished(value)) => return (printed, Ok(value)),
            Ok(Status::Output(value)) => printed.push(render(&value)),
            Ok(Status::Arithmetic { op, lhs, rhs }) => {
                runtime.resume(compute(op, lhs, rhs)).unwrap();
            }
            Ok(Status::OutOfFuel) => panic!("the program runs too long"),
        }
    }
}

fn run(ast: Vec<Func>) -> (Vec<String>, Option<ByteCodeValue>, Runtime) {
    let code = Generator::new(ast).generate_bytecod().unwrap();
    let mut runtime = Runtime::new(code).unwrap();
    let (printed, result) = drive(&mut runtime);
    (printed, result.unwrap(), runtime)
}

fn ops(list: Vec<ByteCodeOp>) -> Vec<RelativeOperation> {
    list.into_iter().map(RelativeOperation::new).collect()
}

fn main_of(list: Vec<ByteCodeOp>) -> Vec<ByteCodeFunction> {
    let mut all = vec![ByteCodeOp::Label(Label::entry("main"))];
    all.extend(list);
    vec![ByteCodeFunction::new("main".to_string(), ops(all), 0)]
}

fn unwrap_ops(list: Vec<RelativeOperation>) -> Vec<ByteCodeOp> {
    list.into_iter().map(|o| o.bytecode_op).collect()
}

#[test]
fn main_returns_the_sum() {
    // main() { return 2 + 3; }
    let body = Expr::Return(bx(Expr::Binary(bx(num(2.0)), BinaryOp::Add, bx(num(3.0)))));
    let (printed, result, _) = run(vec![func("main", &[], body)]);
    assert_eq!(result, Some(number(5.0)));
    assert!(printed.is_empty());
}

#[test]
fn no_main_no_code() {
    let body = Expr::Return(bx(num(1.0)));
    let generator = Generator::new(vec![func("helper", &[], body)]);
    assert!(!generator.has_main());
    assert_eq!(generator.generate_bytecod(), Err(CompileError::NoEntryPoint));
    assert_eq!(Generator::new(vec![]).generate_bytecod(), Err(CompileError::NoEntryPoint));
}

#[test]
fn conditional_prints_big() {
    // main() { let x = 10; if x > 5 { print "big"; } else { print "small"; } return 0; }
    let body = Expr::Let(
        "x".to_string(),
        bx(num(10.0)),
        bx(Expr::Then(
            bx(Expr::If(
                bx(Expr::Binary(bx(var("x")), BinaryOp::GreaterT, bx(num(5.0)))),
                bx(Expr::Print(bx(text("big")))),
                bx(Expr::Print(bx(text("small")))),
            )),
            bx(Expr::Return(bx(num(0.0)))),
        )),
    );
    let (printed, result, _) = run(vec![func("main", &[], body)]);
    assert_eq!(printed, vec!["big".to_string()]);
    assert_eq!(result, Some(number(0.0)));
}

#[test]
fn conditional_takes_the_else_branch() {
    let body = Expr::Let(
        "x".to_string(),
        bx(num(1.0)),
        bx(Expr::Then(
            bx(Expr::If(
                bx(Expr::Binary(bx(var("x")), BinaryOp::GreaterT, bx(num(5.0)))),
                bx(Expr::Print(bx(text("big")))),
                bx(Expr::Print(bx(text("small")))),
            )),
            bx(Expr::Return(bx(num(0.0)))),
        )),
    );
    let (printed, result, _) = run(vec![func("main", &[], body)]);
    assert_eq!(printed, vec!["small".to_string()]);
    assert_eq!(result, Some(number(0.0)));
}

#[test]
fn call_returns_and_leaves_the_stack_empty() {
    // add(a,b) { return a + b; } main() { return add(2,3); }
    let add = func(
        "add",
        &["a", "b"],
        Expr::Return(bx(Expr::Binary(bx(var("a")), BinaryOp::Add, bx(var("b"))))),
    );
    let main = func(
        "main",
        &[],
        Expr::Return(bx(Expr::Call("add".to_string(), vec![num(2.0), num(3.0)]))),
    );
    let (printed, result, runtime) = run(vec![add, main]);
    assert_eq!(result, Some(number(5.0)));
    assert!(printed.is_empty());
    assert_eq!(runtime.value_stack().len(), 0);
    assert_eq!(runtime.call_stack().len(), 0);
    assert_eq!(runtime.frames().len(), 0);
}

#[test]
fn loop_counts_to_three() {
    // main() { let i = 0; loop i < 3 { print i; i = i + 1; } return i; }
    let body = Expr::Let(
        "i".to_string(),
        bx(num(0.0)),
        bx(Expr::Then(
            bx(Expr::Loop(
                bx(Expr::Binary(bx(var("i")), BinaryOp::LowerT, bx(num(3.0)))),
                bx(Expr::Then(
                    bx(Expr::Print(bx(var("i")))),
                    bx(Expr::Assign(
                        "i".to_string(),
                        bx(Expr::Binary(bx(var("i")), BinaryOp::Add, bx(num(1.0)))),
                        bx(null()),
                    )),
                )),
            )),
            bx(Expr::Return(bx(var("i")))),
        )),
    );
    let (printed, result, _) = run(vec![func("main", &[], body)]);
    assert_eq!(printed, vec!["0".to_string(), "1".to_string(), "2".to_string()]);
    assert_eq!(result, Some(number(3.0)));
}

#[test]
fn the_depth_after_a_call_is_the_depth_before_less_the_arguments_plus_one() {
    // Three values below, then a call with two arguments whose body churns.
    let churn = vec![
        ByteCodeOp::Label(Label::entry("churn")),
        ByteCodeOp::Const(number(1.0)),
        ByteCodeOp::Const(number(2.0)),
        ByteCodeOp::Const(number(3.0)),
        ByteCodeOp::LocalGet(1),
        ByteCodeOp::Return,
    ];
    let main = vec![
        ByteCodeOp::Label(Label::entry("main")),
        ByteCodeOp::Const(number(10.0)),
        ByteCodeOp::Const(number(20.0)),
        ByteCodeOp::Const(number(30.0)),
        ByteCodeOp::Const(number(40.0)),
        ByteCodeOp::Const(number(50.0)),
        ByteCodeOp::Call("churn".to_string(), 2),
        ByteCodeOp::End,
    ];
    let mut runtime = Runtime::new(vec![
        ByteCodeFunction::new("main".to_string(), ops(main), 0),
        ByteCodeFunction::new("churn".to_string(), ops(churn), 2),
    ])
    .unwrap();
    // Run up to the call.
    while runtime.operations()[runtime.pc()] != ByteCodeOp::Call("churn".to_string(), 2) {
        assert_eq!(runtime.step(), Ok(Step::Continue));
    }
    let before = runtime.value_stack().len();
    let calls = runtime.call_stack().len();
    assert_eq!(before, 6);
    assert_eq!(runtime.step(), Ok(Step::Continue));
    assert_eq!(runtime.call_stack().len(), calls + 1);
    while runtime.call_stack().len() > calls {
        assert_eq!(runtime.step(), Ok(Step::Continue));
    }
    assert_eq!(runtime.value_stack().len(), before - 2 + 1);
    assert_eq!(
        runtime.value_stack(),
        &vec![
            ByteCodeValue::Return,
            number(10.0),
            number(20.0),
            number(30.0),
            number(50.0)
        ]
    );
    assert_eq!(runtime.pc(), 7);
}

#[test]
fn jump_to_a_missing_label_fails_at_link_time() {
    let nowhere = Label::branch("main", LabelKind::Else, 7);
    let code = main_of(vec![
        ByteCodeOp::Const(number(1.0)),
        ByteCodeOp::End,
        ByteCodeOp::Jump(Label::branch("main", LabelKind::Else, 7)),
    ]);
    match Runtime::new(code) {
        Err(error) => assert_eq!(error, LinkError::UnresolvedLabel(nowhere)),
        Ok(_) => panic!("the program must not link"),
    }
}

#[test]
fn conditional_jump_to_a_missing_label_fails_at_link_time() {
    let code = main_of(vec![ByteCodeOp::JumpFalse(Label::branch("main", LabelKind::LoopEnd, 0))]);
    assert!(matches!(Runtime::new(code), Err(LinkError::UnresolvedLabel(_))));
    let code = main_of(vec![ByteCodeOp::JumpTrue(Label::branch("other", LabelKind::Function, 0))]);
    assert!(matches!(Runtime::new(code), Err(LinkError::UnresolvedLabel(_))));
}

#[test]
fn a_label_at_two_places_fails_at_link_time() {
    let code = main_of(vec![
        ByteCodeOp::Label(Label::branch("main", LabelKind::IfEnd, 0)),
        ByteCodeOp::Label(Label::branch("main", LabelKind::IfEnd, 0)),
    ]);
    match Runtime::new(code) {
        Err(error) => {
            assert_eq!(error, LinkError::DuplicateLabel(Label::branch("main", LabelKind::IfEnd, 0)))
        }
        Ok(_) => panic!("the program must not link"),
    }
}

#[test]
fn a_program_without_main_starts_at_its_first_instruction() {
    let code = vec![ByteCodeFunction::new(
        "helper".to_string(),
        ops(vec![
            ByteCodeOp::Label(Label::entry("helper")),
            ByteCodeOp::Const(number(4.0)),
            ByteCodeOp::Return,
        ]),
        0,
    )];
    let mut runtime = Runtime::new(code).unwrap();
    assert_eq!(runtime.pc(), 0);
    // No `End` closes the program: the first call returns behind it.
    assert_eq!(runtime.call_stack(), &vec![3]);
    let error = runtime.execute_program(100).unwrap_err();
    assert_eq!((error.kind, error.pc, error.op), (Fault::EndOfProgram, 3, None));
    assert_eq!(runtime.value_stack(), &vec![number(4.0)]);
}

#[test]
fn an_empty_program_links_and_cannot_run() {
    let mut runtime = Runtime::new(vec![]).unwrap();
    assert_eq!(runtime.operations().len(), 0);
    assert_eq!(runtime.pc(), 0);
    assert_eq!(runtime.call_stack(), &vec![0]);
    let error = runtime.step().unwrap_err();
    assert_eq!((error.kind, error.pc, error.op), (Fault::EndOfProgram, 0, None));
    assert_eq!(runtime.resume(1).map_err(|e| e.kind), Err(Fault::NothingPending));
}

#[test]
fn the_program_is_the_instructions_of_the_functions_one_after_the_other() {
    let helper = vec![ByteCodeOp::Label(Label::entry("helper")), ByteCodeOp::Return];
    let main = vec![
        ByteCodeOp::Label(Label::entry("main")),
        ByteCodeOp::Jump(Label::branch("main", LabelKind::IfEnd, 0)),
        ByteCodeOp::Label(Label::branch("main", LabelKind::IfEnd, 0)),
        ByteCodeOp::End,
    ];
    let last = vec![ByteCodeOp::Label(Label::entry("last")), ByteCodeOp::Print];
    let runtime = Runtime::new(vec![
        ByteCodeFunction::new("helper".to_string(), ops(helper), 0),
        ByteCodeFunction::new("main".to_string(), ops(main), 0),
        ByteCodeFunction::new("last".to_string(), ops(last), 0),
    ])
    .unwrap();
    assert_eq!(
        runtime.operations(),
        &vec![
            ByteCodeOp::Label(Label::entry("helper")),
            ByteCodeOp::Return,
            ByteCodeOp::Label(Label::entry("main")),
            ByteCodeOp::Jump(Label::branch("main", LabelKind::IfEnd, 0)),
            ByteCodeOp::Label(Label::branch("main", LabelKind::IfEnd, 0)),
            ByteCodeOp::End,
            ByteCodeOp::Label(Label::entry("last")),
            ByteCodeOp::Print,
        ]
    );
    assert_eq!(runtime.operations().len(), 2 + 4 + 2);
    // Each label stands where its instruction stands, and nothing else is a label.
    assert_eq!(runtime.label_offset(&Label::entry("helper")), Some(0));
    assert_eq!(runtime.label_offset(&Label::entry("main")), Some(2));
    assert_eq!(runtime.label_offset(&Label::branch("main", LabelKind::IfEnd, 0)), Some(4));
    assert_eq!(runtime.label_offset(&Label::entry("last")), Some(6));
    assert_eq!(runtime.label_offset(&Label::branch("main", LabelKind::Else, 0)), None);
    assert_eq!(runtime.label_offset(&Label::entry("nobody")), None);
}

#[test]
fn the_machine_starts_at_the_label_of_main() {
    let helper = ByteCodeFunction::new(
        "helper".to_string(),
        ops(vec![ByteCodeOp::Label(Label::entry("helper")), ByteCodeOp::Return]),
        0,
    );
    let main = ByteCodeFunction::new(
        "main".to_string(),
        ops(vec![ByteCodeOp::Label(Label::entry("main")), ByteCodeOp::End]),
        0,
    );
    let runtime = Runtime::new(vec![helper, main]).unwrap();
    assert_eq!(runtime.pc(), 2);
    assert_eq!(runtime.operations().len(), 4);
    assert_eq!(runtime.operations()[3], ByteCodeOp::End);
    assert_eq!(runtime.value_stack(), &vec![ByteCodeValue::Return]);
    // `main` returns to the `End` that closes it.
    assert_eq!(runtime.call_stack(), &vec![3]);
    assert_eq!(runtime.frames().len(), 1);
}

#[test]
fn main_returns_to_its_own_end_not_to_an_earlier_one() {
    let first = vec![ByteCodeOp::Label(Label::entry("first")), ByteCodeOp::End];
    let main = vec![
        ByteCodeOp::Label(Label::entry("main")),
        ByteCodeOp::Const(number(9.0)),
        ByteCodeOp::Return,
        ByteCodeOp::Print,
        ByteCodeOp::End,
    ];
    let mut runtime = Runtime::new(vec![
        ByteCodeFunction::new("first".to_string(), ops(first), 0),
        ByteCodeFunction::new("main".to_string(), ops(main), 0),
    ])
    .unwrap();
    assert_eq!(runtime.call_stack(), &vec![6]);
    assert_eq!(runtime.execute_program(100), Ok(Status::Finished(Some(number(9.0)))));
    assert_eq!(runtime.pc(), 6);
}

#[test]
fn running_off_the_end_is_a_fault() {
    let mut runtime = Runtime::new(main_of(vec![ByteCodeOp::Const(number(1.0))])).unwrap();
    let error = runtime.execute_program(100).unwrap_err();
    assert_eq!((error.kind, error.pc, error.op), (Fault::EndOfProgram, 2, None));
    // The constant was pushed before the machine found nothing to run.
    assert_eq!(runtime.value_stack(), &vec![ByteCodeValue::Return, number(1.0)]);
    assert_eq!(runtime.pc(), 2);
    assert_eq!(runtime.step().map_err(|e| e.kind), Err(Fault::EndOfProgram));
}

#[test]
fn two_functions_of_one_name_are_a_compile_error() {
    let twice = vec![
        func("main", &[], Expr::Return(bx(num(1.0)))),
        func("f", &[], num(1.0)),
        func("g", &[], num(2.0)),
        func("f", &["a"], var("a")),
        func("g", &[], var("nothing")),
    ];
    assert_eq!(
        Generator::new(twice).generate_bytecod(),
        Err(CompileError::DuplicateFunction("f".to_string()))
    );
    // Without `main` that is the error, whatever else is wrong.
    let no_main = vec![func("f", &[], num(1.0)), func("f", &[], num(2.0))];
    assert_eq!(Generator::new(no_main).generate_bytecod(), Err(CompileError::NoEntryPoint));
}

#[test]
fn lowering_an_expression_in_a_given_context() {
    let function = func("f", &["a", "b"], null());
    let mut ctx = Context::for_function(&function);
    let mut operations = Vec::new();
    let expr = Expr::Let("c".to_string(), bx(var("b")), bx(var("c")));
    assert_eq!(generate_function_bytecode(&expr, "f", &mut ctx, &mut operations), Ok(()));
    // The context goes on where the first expression left it.
    let next = Expr::Let(
        "d".to_string(),
        bx(Expr::If(bx(var("a")), bx(var("c")), bx(null()))),
        bx(var("d")),
    );
    assert_eq!(generate_function_bytecode(&next, "f", &mut ctx, &mut operations), Ok(()));
    assert_eq!(
        unwrap_ops(operations),
        vec![
            ByteCodeOp::LocalGet(1),
            ByteCodeOp::LocalSet(2),
            ByteCodeOp::LocalGet(2),
            ByteCodeOp::LocalGet(0),
            ByteCodeOp::JumpFalse(Label::branch("f", LabelKind::Else, 0)),
            ByteCodeOp::LocalGet(2),
            ByteCodeOp::Jump(Label::branch("f", LabelKind::IfEnd, 0)),
            ByteCodeOp::Label(Label::branch("f", LabelKind::Else, 0)),
            ByteCodeOp::Label(Label::branch("f", LabelKind::IfEnd, 0)),
            ByteCodeOp::LocalSet(3),
            ByteCodeOp::LocalGet(3),
        ]
    );
    let mut rest = Vec::new();
    assert_eq!(
        generate_function_bytecode(&var("e"), "f", &mut ctx, &mut rest),
        Err(CompileError::UnboundVariable("e".to_string()))
    );
}

#[test]
fn lowering_of_a_function() {
    // f(a) { let b = a; if b == a { b } else { } ; b = 1; print b }
    let body = Expr::Let(
        "b".to_string(),
        bx(var("a")),
        bx(Expr::Then(
            bx(Expr::If(
                bx(Expr::Binary(bx(var("b")), BinaryOp::Eq, bx(var("a")))),
                bx(var("b")),
                bx(null()),
            )),
            bx(Expr::Assign("b".to_string(), bx(num(1.0)), bx(Expr::Print(bx(var("b")))))),
        )),
    );
    let code = unwrap_ops(generate_function_code(&func("f", &["a"], body)).unwrap());
    assert_eq!(
        code,
        vec![
            ByteCodeOp::Label(Label::entry("f")),
            ByteCodeOp::LocalGet(0),
            ByteCodeOp::LocalSet(1),
            ByteCodeOp::LocalGet(1),
            ByteCodeOp::LocalGet(0),
            ByteCodeOp::Equal,
            ByteCodeOp::JumpFalse(Label::branch("f", LabelKind::Else, 0)),
            ByteCodeOp::LocalGet(1),
            ByteCodeOp::Jump(Label::branch("f", LabelKind::IfEnd, 0)),
            ByteCodeOp::Label(Label::branch("f", LabelKind::Else, 0)),
            ByteCodeOp::Label(Label::branch("f", LabelKind::IfEnd, 0)),
            ByteCodeOp::Const(number(1.0)),
            ByteCodeOp::LocalSet(1),
            ByteCodeOp::LocalGet(1),
            ByteCodeOp::Print,
        ]
    );
}

#[test]
fn lowering_of_a_loop_and_a_call() {
    let body = Expr::Loop(
        bx(Expr::Value(Value::Bool(false))),
        bx(Expr::Call("g".to_string(), vec![num(1.0), text("x")])),
    );
    let code = unwrap_ops(generate_function_code(&func("main", &[], body)).unwrap());
    assert_eq!(
        code,
        vec![
            ByteCodeOp::Label(Label::entry("main")),
            ByteCodeOp::Label(Label::branch("main", LabelKind::LoopStart, 0)),
            ByteCodeOp::Const(ByteCodeValue::Boolean(false)),
            ByteCodeOp::JumpFalse(Label::branch("main", LabelKind::LoopEnd, 0)),
            ByteCodeOp::Const(number(1.0)),
            ByteCodeOp::Const(ByteCodeValue::String("x".to_string())),
            ByteCodeOp::Call("g".to_string(), 2),
            ByteCodeOp::Jump(Label::branch("main", LabelKind::LoopStart, 0)),
            ByteCodeOp::Label(Label::branch("main", LabelKind::LoopEnd, 0)),
            ByteCodeOp::End,
        ]
    );
}

#[test]
fn every_let_takes_a_new_slot_and_every_construct_a_new_label() {
    // let x = 1; (if true { let x = 2; x } else { }) ; (if true { } else { }) ; let y = x; y
    let first_if = Expr::If(
        bx(Expr::Value(Value::Bool(true))),
        bx(Expr::Let("x".to_string(), bx(num(2.0)), bx(var("x")))),
        bx(null()),
    );
    let second_if = Expr::If(bx(Expr::Value(Value::Bool(true))), bx(null()), bx(null()));
    let body = Expr::Let(
        "x".to_string(),
        bx(num(1.0)),
        bx(Expr::Then(
            bx(first_if),
            bx(Expr::Then(
                bx(second_if),
                bx(Expr::Let("y".to_string(), bx(var("x")), bx(var("y")))),
            )),
        )),
    );
    let code = unwrap_ops(generate_function_code(&func("f", &["p"], body)).unwrap());
    assert_eq!(
        code,
        vec![
            ByteCodeOp::Label(Label::entry("f")),
            ByteCodeOp::Const(number(1.0)),
            ByteCodeOp::LocalSet(1),
            ByteCodeOp::Const(ByteCodeValue::Boolean(true)),
            ByteCodeOp::JumpFalse(Label::branch("f", LabelKind::Else, 0)),
            ByteCodeOp::Const(number(2.0)),
            ByteCodeOp::LocalSet(2),
            ByteCodeOp::LocalGet(2),
            ByteCodeOp::Jump(Label::branch("f", LabelKind::IfEnd, 0)),
            ByteCodeOp::Label(Label::branch("f", LabelKind::Else, 0)),
            ByteCodeOp::Label(Label::branch("f", LabelKind::IfEnd, 0)),
            ByteCodeOp::Const(ByteCodeValue::Boolean(true)),
            ByteCodeOp::JumpFalse(Label::branch("f", LabelKind::Else, 1)),
            ByteCodeOp::Jump(Label::branch("f", LabelKind::IfEnd, 1)),
            ByteCodeOp::Label(Label::branch("f", LabelKind::Else, 1)),
            ByteCodeOp::Label(Label::branch("f", LabelKind::IfEnd, 1)),
            ByteCodeOp::LocalGet(2),
            ByteCodeOp::LocalSet(3),
            ByteCodeOp::LocalGet(3),
        ]
    );
}

#[test]
fn unbound_names_are_compile_errors() {
    let read = func("main", &[], Expr::Return(bx(var("ghost"))));
    assert_eq!(
        Generator::new(vec![read]).generate_bytecod(),
        Err(CompileError::UnboundVariable("ghost".to_string()))
    );
    let write = func("main", &["a"], Expr::Assign("b".to_string(), bx(var("a")), bx(null())));
    assert_eq!(
        Generator::new(vec![write]).generate_bytecod(),
        Err(CompileError::UnboundAssignment("b".to_string()))
    );
    // The first error in the order of the walk is the one reported.
    let both = func(
        "main",
        &[],
        Expr::Then(
            bx(Expr::Assign("b".to_string(), bx(num(1.0)), bx(null()))),
            bx(var("ghost")),
        ),
    );
    assert_eq!(
        Generator::new(vec![both]).generate_bytecod(),
        Err(CompileError::UnboundAssignment("b".to_string()))
    );
}

#[test]
fn an_error_in_any_function_gives_no_code_at_all() {
    let good = func("main", &[], Expr::Return(bx(num(1.0))));
    let bad = func("helper", &[], var("nothing"));
    assert_eq!(
        Generator::new(vec![good, bad]).generate_bytecod(),
        Err(CompileError::UnboundVariable("nothing".to_string()))
    );
}

#[test]
fn null_in_a_list_is_refused() {
    let list = Expr::Value(Value::List(vec![Value::Num(1.0f64.to_bits()), Value::Null]));
    assert_eq!(
        Generator::new(vec![func("main", &[], list)]).generate_bytecod(),
        Err(CompileError::NullInList)
    );
    assert_eq!(ByteCodeValue::from_literal(&Value::Null), None);
    assert_eq!(
        ByteCodeValue::from_literal(&Value::List(vec![
            Value::Bool(true),
            Value::List(vec![Value::Str("s".to_string())])
        ])),
        Some(ByteCodeValue::List(vec![
            ByteCodeValue::Boolean(true),
            ByteCodeValue::List(vec![ByteCodeValue::String("s".to_string())])
        ]))
    );
}

#[test]
fn generated_code_keeps_the_order_of_the_functions() {
    let a = func("a", &["x", "y"], var("y"));
    let main = func("main", &[], Expr::Return(bx(num(1.0))));
    let code = Generator::new(vec![a, main]).generate_bytecod().unwrap();
    assert_eq!(code.len(), 2);
    assert_eq!(code[0].name, "a");
    assert_eq!(code[0].arg_ct, 2);
    assert_eq!(
        code[0].ops,
        ops(vec![ByteCodeOp::Label(Label::entry("a")), ByteCodeOp::LocalGet(1)])
    );
    assert_eq!(code[1].name, "main");
    assert_eq!(code[1].arg_ct, 0);
}

fn fault_of(list: Vec<ByteCodeOp>) -> (Fault, usize) {
    let mut runtime = Runtime::new(main_of(list)).unwrap();
    loop {
        match runtime.execute_program(1000) {
            Err(error) => {
                assert_eq!(error.op.as_ref(), runtime.operations().get(error.pc));
                assert_eq!(error.pc, runtime.pc());
                return (error.kind, error.pc);
            }
            Ok(Status::Arithmetic { op, lhs, rhs }) => {
                runtime.resume(compute(op, lhs, rhs)).unwrap();
            }
            Ok(Status::Output(_)) => {}
            Ok(other) => panic!("the program must fail, not {:?}", other),
        }
    }
}

#[test]
fn runtime_faults() {
    let t = ByteCodeValue::Boolean(true);
    assert_eq!(
        fault_of(vec![ByteCodeOp::Const(number(1.0)), ByteCodeOp::Const(ByteCodeValue::Boolean(true)), ByteCodeOp::Add]),
        (Fault::TypeMismatch, 3)
    );
    assert_eq!(
        fault_of(vec![ByteCodeOp::Const(ByteCodeValue::Boolean(true)), ByteCodeOp::Const(number(1.0)), ByteCodeOp::LowerT]),
        (Fault::TypeMismatch, 3)
    );
    assert_eq!(fault_of(vec![ByteCodeOp::LocalSet(0), ByteCodeOp::LocalSet(0)]), (Fault::ValueStackUnderflow, 2));
    assert_eq!(fault_of(vec![ByteCodeOp::LocalGet(3)]), (Fault::UnboundLocal, 1));
    assert_eq!(fault_of(vec![ByteCodeOp::ListAt]), (Fault::UnsupportedOperation, 1));
    assert_eq!(fault_of(vec![ByteCodeOp::Call("nobody".to_string(), 0)]), (Fault::UnknownFunction, 1));
    assert_eq!(fault_of(vec![ByteCodeOp::Call("main".to_string(), 2)]), (Fault::ValueStackUnderflow, 1));
    assert_eq!(
        fault_of(vec![ByteCodeOp::Const(number(1.0)), ByteCodeOp::JumpFalse(Label::entry("main"))]),
        (Fault::TypeMismatch, 2)
    );
    // A return that finds no sentinel below its result.
    assert_eq!(
        fault_of(vec![ByteCodeOp::LocalSet(0), ByteCodeOp::Const(number(1.0)), ByteCodeOp::Return]),
        (Fault::ValueStackUnderflow, 3)
    );
    assert_eq!(fault_of(vec![ByteCodeOp::LocalSet(0), ByteCodeOp::Return]), (Fault::ValueStackUnderflow, 2));
    assert_eq!(
        fault_of(vec![ByteCodeOp::LocalSet(0), ByteCodeOp::Const(t), ByteCodeOp::NotEq]),
        (Fault::ValueStackUnderflow, 3)
    );
    assert_eq!(fault_of(vec![ByteCodeOp::Print, ByteCodeOp::Print]), (Fault::ValueStackUnderflow, 2));
}

#[test]
fn endless_recursion_overflows_the_call_stack() {
    // main() { return main(); }
    let main = func("main", &[], Expr::Return(bx(Expr::Call("main".to_string(), vec![]))));
    let code = Generator::new(vec![main]).generate_bytecod().unwrap();
    let mut runtime = Runtime::new(code).unwrap();
    let (_, result) = drive(&mut runtime);
    assert_eq!(result, Err(Fault::StackOverflow));
    assert_eq!(runtime.call_stack().len(), nanovm::machine::MAX_CALL_DEPTH);
}

#[test]
fn a_failed_step_leaves_the_machine_as_it_was() {
    let mut runtime = Runtime::new(main_of(vec![
        ByteCodeOp::Const(ByteCodeValue::String("a".to_string())),
        ByteCodeOp::Const(number(1.0)),
        ByteCodeOp::Mul,
    ]))
    .unwrap();
    assert_eq!(runtime.execute_program(10).map_err(|e| e.kind), Err(Fault::TypeMismatch));
    assert_eq!(runtime.pc(), 3);
    assert_eq!(
        runtime.value_stack(),
        &vec![ByteCodeValue::Return, ByteCodeValue::String("a".to_string()), number(1.0)]
    );
    assert_eq!(runtime.step().map_err(|e| e.kind), Err(Fault::TypeMismatch));
    assert_eq!(runtime.resume(0).map_err(|e| e.kind), Err(Fault::TypeMismatch));
}

#[test]
fn arithmetic_waits_for_the_host_with_the_left_operand_first() {
    let mut runtime = Runtime::new(main_of(vec![
        ByteCodeOp::Const(number(7.0)),
        ByteCodeOp::Const(number(2.0)),
        ByteCodeOp::Sub,
        ByteCodeOp::Const(number(4.0)),
        ByteCodeOp::Div,
        ByteCodeOp::Return,
        ByteCodeOp::End,
    ]))
    .unwrap();
    assert_eq!(
        runtime.execute_program(100),
        Ok(Status::Arithmetic { op: ArithmeticOp::Sub, lhs: 7.0f64.to_bits(), rhs: 2.0f64.to_bits() })
    );
    // The machine stays where it is until the result comes.
    assert_eq!(
        runtime.step(),
        Ok(Step::Arithmetic { op: ArithmeticOp::Sub, lhs: 7.0f64.to_bits(), rhs: 2.0f64.to_bits() })
    );
    assert_eq!(runtime.value_stack().len(), 3);
    assert_eq!(runtime.resume(5.0f64.to_bits()), Ok(()));
    assert_eq!(runtime.value_stack(), &vec![ByteCodeValue::Return, number(5.0)]);
    assert_eq!(
        runtime.execute_program(100),
        Ok(Status::Arithmetic { op: ArithmeticOp::Div, lhs: 5.0f64.to_bits(), rhs: 4.0f64.to_bits() })
    );
    assert_eq!(runtime.resume(1.25f64.to_bits()), Ok(()));
    assert_eq!(runtime.execute_program(100), Ok(Status::Finished(Some(number(1.25)))));
    assert_eq!(runtime.execute_program(100), Ok(Status::Finished(None)));
}

#[test]
fn a_result_where_none_is_awaited_is_refused() {
    let mut runtime = Runtime::new(main_of(vec![ByteCodeOp::Const(number(7.0))])).unwrap();
    assert_eq!(runtime.resume(1).map_err(|e| e.kind), Err(Fault::NothingPending));
    assert_eq!(runtime.pc(), 0);
}

#[test]
fn fuel_bounds_a_run() {
    // main() { loop true { } }
    let main = func("main", &[], Expr::Loop(bx(Expr::Value(Value::Bool(true))), bx(null())));
    let code = Generator::new(vec![main]).generate_bytecod().unwrap();
    let mut runtime = Runtime::new(code).unwrap();
    assert_eq!(runtime.execute_program(0), Ok(Status::OutOfFuel));
    assert_eq!(runtime.pc(), 0);
    assert_eq!(runtime.execute_program(1), Ok(Status::OutOfFuel));
    assert_eq!(runtime.pc(), 1);
    assert_eq!(runtime.execute_program(1000), Ok(Status::OutOfFuel));
}

#[test]
fn a_program_that_falls_off_main_finishes_without_a_result() {
    let (printed, result, _) = run(vec![func("main", &[], Expr::Print(bx(num(1.5))))]);
    assert_eq!(printed, vec!["1.5".to_string()]);
    assert_eq!(result, None);
}

#[test]
fn comparisons_follow_the_doubles() {
    let nan = f64::NAN;
    let cases: Vec<(f64, f64)> = vec![
        (1.0, 2.0),
        (2.0, 1.0),
        (-1.0, 1.0),
        (-2.0, -1.0),
        (0.0, -0.0),
        (-0.0, 0.0),
        (nan, 1.0),
        (1.0, nan),
        (nan, nan),
        (f64::INFINITY, f64::MAX),
        (f64::NEG_INFINITY, f64::MIN),
        (5e-324, 0.0),
        (-5e-324, 0.0),
        (3.5, 3.5),
    ];
    for (a, b) in cases {
        assert_eq!(nanovm::number::number_less(a.to_bits(), b.to_bits()), a < b, "{} < {}", a, b);
        assert_eq!(nanovm::number::numbers_equal(a.to_bits(), b.to_bits()), a == b, "{} == {}", a, b);
        assert_eq!(number(a).equals(&number(b)), a == b);
        let (_, result, _) = run(vec![func(
            "main",
            &[],
            Expr::Return(bx(Expr::Binary(bx(num(a)), BinaryOp::GreaterT, bx(num(b))))),
        )]);
        assert_eq!(result, Some(ByteCodeValue::Boolean(a > b)));
        let (_, result, _) = run(vec![func(
            "main",
            &[],
            Expr::Return(bx(Expr::Binary(bx(num(a)), BinaryOp::NotEq, bx(num(b))))),
        )]);
        assert_eq!(result, Some(ByteCodeValue::Boolean(a != b)));
    }
}

#[test]
fn values_of_different_kinds_are_unequal() {
    let values = vec![
        number(1.0),
        ByteCodeValue::Boolean(true),
        ByteCodeValue::String("1".to_string()),
        ByteCodeValue::List(vec![number(1.0)]),
        ByteCodeValue::List(vec![number(1.0), number(2.0)]),
        ByteCodeValue::List(vec![]),
        ByteCodeValue::Return,
    ];
    for (i, a) in values.iter().enumerate() {
        for (j, b) in values.iter().enumerate() {
            assert_eq!(a.equals(b), i == j);
        }
    }
    assert!(!ByteCodeValue::List(vec![number(f64::NAN)]).equals(&ByteCodeValue::List(vec![number(f64::NAN)])));
    assert!(ByteCodeValue::List(vec![number(0.0)]).equals(&ByteCodeValue::List(vec![number(-0.0)])));
    assert!(ByteCodeValue::Return.is_sentinel());
    assert!(!number(0.0).is_sentinel());
}

#[test]
fn clones_are_deep() {
    let value = ByteCodeValue::List(vec![
        number(1.0),
        ByteCodeValue::List(vec![ByteCodeValue::String("s".to_string())]),
    ]);
    assert_eq!(value.clone(), value);
    let op = ByteCodeOp::Jump(Label::branch("f", LabelKind::LoopStart, 3));
    assert_eq!(op.clone(), op);
    assert!(Label::entry("f").same(&Label::branch("f", LabelKind::Function, 0)));
    assert!(!Label::entry("f").same(&Label::entry("g")));
    assert!(Label::entry("f").is_entry_of(&"f".to_string()));
    assert!(!Label::branch("f", LabelKind::Else, 0).is_entry_of(&"f".to_string()));
}

#[test]
fn arguments_land_in_their_slots() {
    // second(a, b) { return b; } main() { return second("x", "y"); }
    let second = func("second", &["a", "b"], Expr::Return(bx(var("b"))));
    let main = func(
        "main",
        &[],
        Expr::Return(bx(Expr::Call("second".to_string(), vec![text("x"), text("y")]))),
    );
    let (_, result, _) = run(vec![main, second]);
    assert_eq!(result, Some(ByteCodeValue::String("y".to_string())));
}

#[test]
fn recursion_keeps_the_frames_apart() {
    // down(n) { if n > 0 { print n; return down(n - 1); } else { return n; } }
    let down = func(
        "down",
        &["n"],
        Expr::If(
            bx(Expr::Binary(bx(var("n")), BinaryOp::GreaterT, bx(num(0.0)))),
            bx(Expr::Then(
                bx(Expr::Print(bx(var("n")))),
                bx(Expr::Return(bx(Expr::Call(
                    "down".to_string(),
                    vec![Expr::Binary(bx(var("n")), BinaryOp::Sub, bx(num(1.0)))],
                )))),
            )),
            bx(Expr::Return(bx(var("n")))),
        ),
    );
    let main = func("main", &[], Expr::Return(bx(Expr::Call("down".to_string(), vec![num(3.0)]))));
    let (printed, result, runtime) = run(vec![main, down]);
    assert_eq!(printed, vec!["3".to_string(), "2".to_string(), "1".to_string()]);
    assert_eq!(result, Some(number(0.0)));
    assert_eq!(runtime.value_stack().len(), 0);
}
