use lua_interpreter::ast::{BinaryOperator, Expr, Stmt, TableField, UnaryOperator};
use lua_interpreter::lexer::Lexer;
use lua_interpreter::number::Number;
use lua_interpreter::parser::Parser;
use lua_interpreter::value::{Function, Value};
use lua_interpreter::vm::{Reply, Request, Status, Vm};

/// A host that computes with the doubles of the machine and keeps what is
/// printed.
struct Host {
    lines: Vec<String>,
    requests: usize,
}

impl Host {
    fn new() -> Host {
        Host { lines: Vec::new(), requests: 0 }
    }

    fn answer(&mut self, request: Request) -> Reply {
        self.requests += 1;
        match request {
            Request::Parse(text) => match text.parse::<f64>() {
                Ok(n) => Reply::Number(Number { bits: n.to_bits() }),
                Err(_) => Reply::Nothing,
            },
            Request::Format(n) => Reply::Text(f64::from_bits(n.bits).to_string()),
            Request::Arithmetic(operator, left, right) => {
                let a = f64::from_bits(left.bits);
                let b = f64::from_bits(right.bits);
                let result = match operator {
                    BinaryOperator::Add => a + b,
                    BinaryOperator::Subtract => a - b,
                    BinaryOperator::Multiply => a * b,
                    BinaryOperator::Divide => a / b,
                    BinaryOperator::Modulo => a % b,
                    BinaryOperator::Power => a.powf(b),
                    _ => return Reply::Nothing,
                };
                Reply::Number(Number { bits: result.to_bits() })
            }
            Request::Print(line) => {
                self.lines.push(line);
                Reply::Nothing
            }
        }
    }

    fn run(&mut self, vm: &mut Vm, stmts: Vec<Stmt>) -> Value {
        vm.execute(stmts);
        let mut reply = Reply::Nothing;
        for _ in 0..1_000_000 {
            assert!(!vm.frame_missing(), "No call frame available");
            match vm.step(reply) {
                Status::Running => reply = Reply::Nothing,
                Status::Waiting(request) => reply = self.answer(request),
                Status::Finished(value) => return value,
            }
        }
        panic!("the program did not finish");
    }

    fn run_source(&mut self, vm: &mut Vm, source: &str) -> Value {
        let tokens = Lexer::new(source.to_string()).tokenize();
        let stmts = Parser::new(tokens).parse();
        self.run(vm, stmts)
    }
}

fn eval_source(source: &str) -> Value {
    Host::new().run_source(&mut Vm::new(), source)
}

fn eval_stmts(stmts: Vec<Stmt>) -> Value {
    Host::new().run(&mut Vm::new(), stmts)
}

fn eval_expr(expr: Expr) -> Value {
    eval_stmts(vec![Stmt::Return(Some(vec![expr]))])
}

fn global(vm: &mut Vm, name: &str) -> Value {
    Host::new().run(vm, vec![Stmt::Expr(id(name))])
}

fn num(n: f64) -> Value {
    Value::Number(Number { bits: n.to_bits() })
}

fn text(s: &str) -> Value {
    Value::String(s.to_string())
}

fn lit(text: &str) -> Expr {
    Expr::Number(text.to_string())
}

fn id(name: &str) -> Expr {
    Expr::Identifier(name.to_string())
}

fn string(text: &str) -> Expr {
    Expr::String(text.to_string())
}

fn call(name: &str, arguments: Vec<Expr>) -> Expr {
    Expr::FunctionCall { name: name.to_string(), arguments }
}

fn binary(left: Expr, operator: BinaryOperator, right: Expr) -> Expr {
    Expr::BinaryOp { left: Box::new(left), operator, right: Box::new(right) }
}

fn unary(operator: UnaryOperator, operand: Expr) -> Expr {
    Expr::UnaryOp { operator, operand: Box::new(operand) }
}

fn index(table: Expr, key: Expr) -> Expr {
    Expr::TableAccess { table: Box::new(table), key: Box::new(key) }
}

fn table(fields: Vec<TableField>) -> Expr {
    Expr::TableConstructor { fields }
}

fn set(name: &str, value: Expr) -> Stmt {
    Stmt::Assignment { variables: vec![name.to_string()], values: vec![value] }
}

fn local(name: &str, value: Expr) -> Stmt {
    Stmt::LocalAssignment { variables: vec![name.to_string()], values: vec![value] }
}

fn ret(value: Expr) -> Stmt {
    Stmt::Return(Some(vec![value]))
}

fn define(name: &str, parameters: &[&str], body: Vec<Stmt>) -> Stmt {
    Stmt::Function {
        name: name.to_string(),
        parameters: parameters.iter().map(|p| p.to_string()).collect(),
        body,
    }
}

#[test]
fn an_empty_program_gives_nil() {
    assert_eq!(eval_source(""), Value::Nil);
    assert_eq!(eval_stmts(Vec::new()), Value::Nil);
}

#[test]
fn stepping_a_finished_evaluator_gives_nil() {
    let mut vm = Vm::new();
    assert!(matches!(vm.step(Reply::Nothing), Status::Finished(Value::Nil)));
    assert!(matches!(vm.step(Reply::Text("x".to_string())), Status::Finished(Value::Nil)));
}

#[test]
fn literals_evaluate_to_themselves() {
    assert_eq!(eval_source("return 42"), num(42.0));
    assert_eq!(eval_source("return 3.25"), num(3.25));
    assert_eq!(eval_source("return 'hi'"), text("hi"));
    assert_eq!(eval_expr(Expr::Boolean(true)), Value::Boolean(true));
    assert_eq!(eval_expr(Expr::Boolean(false)), Value::Boolean(false));
    assert_eq!(eval_expr(Expr::Nil), Value::Nil);
}

#[test]
fn the_value_of_a_program_is_that_of_its_last_statement() {
    assert_eq!(eval_source("1 2 3"), num(3.0));
    assert_eq!(eval_source("1 x = 2"), Value::Nil);
    assert_eq!(eval_source("x = 2 x"), num(2.0));
}

#[test]
fn source_text_with_a_table_constructor_gives_nil() {
    assert_eq!(eval_source("local t = {}; t[1] = 5; return #t"), Value::Nil);
}

#[test]
fn length_of_a_table_is_its_number_of_pairs() {
    let one = table(vec![TableField::Value(lit("5"))]);
    assert_eq!(eval_expr(unary(UnaryOperator::Length, one)), num(1.0));
    let named = table(vec![TableField::KeyValue("n".to_string(), lit("100"))]);
    assert_eq!(eval_expr(unary(UnaryOperator::Length, named)), num(1.0));
    let three = table(vec![
        TableField::Value(lit("5")),
        TableField::KeyValue("k".to_string(), lit("6")),
        TableField::Value(lit("7")),
    ]);
    assert_eq!(eval_expr(unary(UnaryOperator::Length, three)), num(3.0));
    assert_eq!(eval_expr(unary(UnaryOperator::Length, table(Vec::new()))), num(0.0));
}

#[test]
fn no_equality_across_types() {
    assert_eq!(eval_source("return 1 == \"1\""), Value::Boolean(false));
    assert_eq!(eval_source("x = nil; return x == nil"), Value::Boolean(true));
    assert_eq!(eval_source("return 1 == 1"), Value::Boolean(true));
    assert_eq!(eval_source("return 1 ~= \"1\""), Value::Boolean(true));
    assert_eq!(eval_source("return 'a' == 'a'"), Value::Boolean(true));
    assert_eq!(eval_source("return 'a' ~= 'a'"), Value::Boolean(false));
    assert_eq!(eval_source("return nil == 0"), Value::Boolean(false));
}

#[test]
fn calling_an_undefined_name_gives_nil() {
    assert_eq!(eval_expr(call("nothing", Vec::new())), Value::Nil);
    assert_eq!(eval_expr(call("nothing", vec![lit("1"), string("a")])), Value::Nil);
}

#[test]
fn calling_what_is_no_function_gives_nil() {
    assert_eq!(eval_stmts(vec![set("x", lit("5")), ret(call("x", vec![lit("1")]))]), Value::Nil);
    assert_eq!(eval_stmts(vec![set("s", string("f")), ret(call("s", Vec::new()))]), Value::Nil);
}

#[test]
fn the_arguments_of_a_call_of_no_function_are_still_evaluated() {
    let mut host = Host::new();
    let mut vm = Vm::new();
    let value = host.run(
        &mut vm,
        vec![ret(call("nothing", vec![call("print", vec![string("seen")])]))],
    );
    assert_eq!(value, Value::Nil);
    assert_eq!(host.lines, vec!["seen".to_string()]);
}

#[test]
fn operators_apply_from_left_to_right() {
    let mut vm = Vm::new();
    assert_eq!(Host::new().run_source(&mut vm, "a = 1 + 2 * 3"), Value::Nil);
    assert_eq!(global(&mut vm, "a"), num(9.0));
    assert_eq!(eval_source("return 1 + 2 * 3"), num(9.0));
    assert_eq!(eval_source("return 2 * 3 + 1"), num(7.0));
    assert_eq!(eval_source("return 10 - 2 - 3"), num(5.0));
    assert_eq!(eval_source("return 1 + (2 * 3)"), num(7.0));
    assert_eq!(eval_source("return 1 < 2 == 1 < 2"), Value::Boolean(true));
    assert_eq!(eval_source("return 1 < 2 == 1"), Value::Boolean(false));
}

#[test]
fn break_does_not_end_a_loop() {
    let mut vm = Vm::new();
    let source = "x = 0 while x < 3 do x = x + 1 break end return x";
    assert_eq!(Host::new().run_source(&mut vm, source), num(3.0));
    let source = "n = 0 repeat n = n + 1 break until n >= 4 return n";
    assert_eq!(Host::new().run_source(&mut vm, source), num(4.0));
    assert_eq!(eval_source("break"), Value::Nil);
    assert_eq!(eval_source("1 break"), Value::Nil);
}

#[test]
fn break_does_not_end_a_for_loop() {
    let body = vec![
        Stmt::For {
            variable: "i".to_string(),
            start: lit("1"),
            end: lit("5"),
            step: None,
            body: vec![set("n", binary(id("n"), BinaryOperator::Add, lit("1"))), Stmt::Break],
        },
        ret(id("n")),
    ];
    let stmts = vec![set("n", lit("0")), define("f", &[], body), ret(call("f", Vec::new()))];
    assert_eq!(eval_stmts(stmts), num(5.0));
}

#[test]
fn two_functions_with_the_same_text_are_not_equal() {
    let source = "function f(a) return a end function g(a) return a end return f == g";
    assert_eq!(eval_source(source), Value::Boolean(false));
    assert_eq!(eval_source("function f() end return f == f"), Value::Boolean(false));
    assert_eq!(eval_source("function f() end return f ~= f"), Value::Boolean(true));
    assert_eq!(eval_source("return print == print"), Value::Boolean(false));
}

#[test]
fn two_tables_are_not_equal() {
    let stmts = vec![
        set("t", table(Vec::new())),
        ret(binary(id("t"), BinaryOperator::Equal, id("t"))),
    ];
    assert_eq!(eval_stmts(stmts), Value::Boolean(false));
}

#[test]
fn arithmetic() {
    assert_eq!(eval_source("return 7 + 2"), num(9.0));
    assert_eq!(eval_source("return 7 - 2"), num(5.0));
    assert_eq!(eval_source("return 7 * 2"), num(14.0));
    assert_eq!(eval_source("return 7 / 2"), num(3.5));
    assert_eq!(eval_source("return 7 % 2"), num(1.0));
    assert_eq!(eval_source("return 7 ^ 2"), num(49.0));
    assert_eq!(eval_source("return 0.1 + 0.2"), num(0.1 + 0.2));
    assert_eq!(eval_source("return -7 % 2"), num(-1.0));
    assert_eq!(eval_source("return 1 / 0"), num(f64::INFINITY));
    assert_eq!(eval_source("return 2 ^ 0.5"), num(2f64.powf(0.5)));
}

#[test]
fn zero_divided_by_zero_is_not_a_number() {
    match eval_source("return 0 / 0") {
        Value::Number(n) => assert!(f64::from_bits(n.bits).is_nan()),
        other => panic!("{:?}", other),
    }
    assert_eq!(eval_source("x = 0 / 0 return x == x"), Value::Boolean(false));
}

#[test]
fn strings_are_read_as_numbers_in_arithmetic() {
    assert_eq!(eval_source("return '10' + 5"), num(15.0));
    assert_eq!(eval_source("return 5 + '10'"), num(15.0));
    assert_eq!(eval_source("return '2' * '3'"), num(6.0));
    assert_eq!(eval_source("return '1.5' - 1"), num(0.5));
    assert_eq!(eval_source("return -'3'"), num(-3.0));
    assert_eq!(eval_source("return '  7' + 1"), Value::Nil);
    assert_eq!(eval_source("return '1e2' + 1"), num(101.0));
}

#[test]
fn arithmetic_with_what_is_no_number_gives_nil() {
    assert_eq!(eval_source("return 'abc' + 1"), Value::Nil);
    assert_eq!(eval_source("return 1 + 'abc'"), Value::Nil);
    assert_eq!(eval_source("return nothing + 1"), Value::Nil);
    assert_eq!(eval_source("return 1 * nothing"), Value::Nil);
    assert_eq!(eval_source("return -nothing"), Value::Nil);
    assert_eq!(eval_source("return -'abc'"), Value::Nil);
    assert_eq!(eval_source("return print + 1"), Value::Nil);
    assert_eq!(eval_source("return '' + 1"), Value::Nil);
}

#[test]
fn booleans_are_one_and_zero_in_arithmetic() {
    assert_eq!(eval_expr(binary(Expr::Boolean(true), BinaryOperator::Add, lit("1"))), num(2.0));
    assert_eq!(eval_expr(binary(Expr::Boolean(false), BinaryOperator::Multiply, lit("5"))), num(0.0));
    assert_eq!(eval_expr(unary(UnaryOperator::Minus, Expr::Boolean(true))), num(-1.0));
}

#[test]
fn comparisons() {
    assert_eq!(eval_source("return 1 < 2"), Value::Boolean(true));
    assert_eq!(eval_source("return 2 < 1"), Value::Boolean(false));
    assert_eq!(eval_source("return 2 <= 2"), Value::Boolean(true));
    assert_eq!(eval_source("return 2 > 1"), Value::Boolean(true));
    assert_eq!(eval_source("return 2 >= 3"), Value::Boolean(false));
    assert_eq!(eval_source("return '2' < 10"), Value::Boolean(true));
    assert_eq!(eval_source("return '10' < '9'"), Value::Boolean(false));
    assert_eq!(eval_source("return -1 < 0"), Value::Boolean(true));
}

#[test]
fn comparisons_with_what_is_no_number_are_false() {
    assert_eq!(eval_source("return 'a' < 1"), Value::Boolean(false));
    assert_eq!(eval_source("return 1 < 'a'"), Value::Boolean(false));
    assert_eq!(eval_source("return nothing < 1"), Value::Boolean(false));
    assert_eq!(eval_source("return nothing >= nothing"), Value::Boolean(false));
    assert_eq!(eval_source("return 'a' <= 'b'"), Value::Boolean(false));
}

#[test]
fn and_and_or_give_booleans_and_evaluate_both_sides() {
    assert_eq!(eval_source("return 1 and 2"), Value::Boolean(true));
    assert_eq!(eval_source("return 1 and nothing"), Value::Boolean(false));
    assert_eq!(eval_source("return nothing or 0"), Value::Boolean(true));
    assert_eq!(eval_source("return nothing or nothing"), Value::Boolean(false));
    let mut host = Host::new();
    let value = host.run(
        &mut Vm::new(),
        vec![ret(binary(
            Expr::Boolean(true),
            BinaryOperator::Or,
            call("print", vec![string("right")]),
        ))],
    );
    assert_eq!(value, Value::Boolean(true));
    assert_eq!(host.lines, vec!["right".to_string()]);
}

#[test]
fn not_and_length() {
    assert_eq!(eval_source("return not nothing"), Value::Boolean(true));
    assert_eq!(eval_source("return not 0"), Value::Boolean(false));
    assert_eq!(eval_source("return not not 'x'"), Value::Boolean(true));
    assert_eq!(eval_source("return #'hello'"), num(5.0));
    assert_eq!(eval_source("return #''"), num(0.0));
    assert_eq!(eval_source("return #5"), Value::Nil);
    assert_eq!(eval_source("return #nothing"), Value::Nil);
}

#[test]
fn concatenation() {
    assert_eq!(eval_source("return 'a' .. 'b'"), text("ab"));
    assert_eq!(eval_source("return 'a' .. 1"), text("a1"));
    assert_eq!(eval_source("return 1 .. 'a'"), text("1a"));
    assert_eq!(eval_source("return 1 .. 2"), text("12"));
    assert_eq!(eval_source("return 1.5 .. ''"), text("1.5"));
    assert_eq!(eval_source("return 'x' .. nothing"), text("xnil"));
    assert_eq!(eval_source("return 'a' .. 'b' .. 'c'"), text("abc"));
    assert_eq!(eval_source("return print .. ''"), text("function"));
    assert_eq!(eval_expr(binary(table(Vec::new()), BinaryOperator::Concat, Expr::Boolean(true))), text("tabletrue"));
}

#[test]
fn an_unbound_name_is_nil() {
    assert_eq!(eval_source("return nothing"), Value::Nil);
    assert_eq!(eval_source("return nil"), Value::Nil);
}

#[test]
fn assignment_pads_with_nil_and_drops_what_is_left_over() {
    let mut vm = Vm::new();
    let mut host = Host::new();
    assert_eq!(host.run_source(&mut vm, "a, b, c = 1, 2"), Value::Nil);
    assert_eq!(global(&mut vm, "a"), num(1.0));
    assert_eq!(global(&mut vm, "b"), num(2.0));
    assert_eq!(global(&mut vm, "c"), Value::Nil);
    host.run_source(&mut vm, "a, b = 7, 8, 9");
    assert_eq!(global(&mut vm, "a"), num(7.0));
    assert_eq!(global(&mut vm, "b"), num(8.0));
    host.run_source(&mut vm, "a, a = 1, 2");
    assert_eq!(global(&mut vm, "a"), num(2.0));
}

#[test]
fn all_values_of_an_assignment_are_evaluated_before_any_is_assigned() {
    let mut vm = Vm::new();
    let mut host = Host::new();
    host.run_source(&mut vm, "a = 1 b = 2");
    host.run_source(&mut vm, "a, b = b, a");
    assert_eq!(global(&mut vm, "a"), num(2.0));
    assert_eq!(global(&mut vm, "b"), num(1.0));
}

#[test]
fn globals_last_from_one_run_to_the_next() {
    let mut vm = Vm::new();
    let mut host = Host::new();
    host.run_source(&mut vm, "counter = 1");
    host.run_source(&mut vm, "counter = counter + 1");
    assert_eq!(host.run_source(&mut vm, "return counter"), num(2.0));
    host.run_source(&mut vm, "function double(x) return x * 2 end");
    assert_eq!(host.run(&mut vm, vec![ret(call("double", vec![id("counter")]))]), num(4.0));
}

#[test]
fn evaluating_conditionals() {
    assert_eq!(eval_source("if 1 then return 'a' else return 'b' end"), text("a"));
    assert_eq!(eval_source("if nothing then return 'a' else return 'b' end"), text("b"));
    assert_eq!(eval_source("if nothing then return 'a' end"), Value::Nil);
    assert_eq!(eval_source("if 0 then 'zero' end"), text("zero"));
    assert_eq!(eval_source("if '' then 'empty' end"), text("empty"));
    let chain = "if x == 1 then return 'one' elseif x == 2 then return 'two' elseif x == 3 then return 'three' else return 'many' end";
    for (x, expected) in [("1", "one"), ("2", "two"), ("3", "three"), ("4", "many")] {
        let mut vm = Vm::new();
        let mut host = Host::new();
        host.run_source(&mut vm, &format!("x = {}", x));
        assert_eq!(host.run_source(&mut vm, chain), text(expected));
    }
    assert_eq!(eval_source("if nothing then 1 elseif nothing then 2 end"), Value::Nil);
    assert_eq!(eval_source("if 1 then end"), Value::Nil);
}

#[test]
fn only_the_conditions_up_to_the_branch_taken_are_evaluated() {
    let mut host = Host::new();
    let stmts = vec![Stmt::If {
        condition: call("print", vec![string("first")]),
        then_block: vec![ret(lit("1"))],
        else_if_blocks: vec![
            (string("yes"), vec![ret(lit("2"))]),
            (call("print", vec![string("third")]), vec![ret(lit("3"))]),
        ],
        else_block: Some(vec![ret(lit("4"))]),
    }];
    assert_eq!(host.run(&mut Vm::new(), stmts), num(2.0));
    assert_eq!(host.lines, vec!["first".to_string()]);
}

#[test]
fn while_loops() {
    assert_eq!(eval_source("i = 0 s = 0 while i < 5 do i = i + 1 s = s + i end return s"), num(15.0));
    assert_eq!(eval_source("while nothing do x = 1 end return x"), Value::Nil);
    assert_eq!(eval_source("i = 0 while i < 3 do i = i + 1 end"), Value::Nil);
}

#[test]
fn repeat_loops_run_their_body_at_least_once() {
    assert_eq!(eval_source("i = 0 repeat i = i + 1 until i >= 3 return i"), num(3.0));
    assert_eq!(eval_source("i = 10 repeat i = i + 1 until 1 return i"), num(11.0));
    assert_eq!(eval_source("i = 0 repeat i = i + 1 until i >= 3"), Value::Nil);
}

fn for_sum(start: &str, end: &str, step: Option<&str>) -> Value {
    let body = vec![
        Stmt::For {
            variable: "i".to_string(),
            start: lit(start),
            end: lit(end),
            step: step.map(lit),
            body: vec![
                set("n", binary(id("n"), BinaryOperator::Add, lit("1"))),
                set("s", binary(id("s"), BinaryOperator::Add, id("i"))),
            ],
        },
        ret(binary(binary(id("n"), BinaryOperator::Multiply, lit("1000")), BinaryOperator::Add, id("s"))),
    ];
    eval_stmts(vec![
        set("n", lit("0")),
        set("s", lit("0")),
        define("f", &[], body),
        ret(call("f", Vec::new())),
    ])
}

#[test]
fn numeric_for_loops() {
    assert_eq!(for_sum("1", "5", None), num(5015.0));
    assert_eq!(for_sum("1", "10", Some("3")), num(4022.0));
    assert_eq!(for_sum("5", "1", None), num(0.0));
    assert_eq!(for_sum("3", "3", None), num(1003.0));
    assert_eq!(for_sum("0", "1", Some("0.25")), num(5002.5));
    assert_eq!(for_sum("1", "5", Some("0")), num(0.0));
}

#[test]
fn numeric_for_loops_with_a_negative_step() {
    let source = "function f() n = 0 for i = 5, 1, -2 do n = n * 10 + i end return n end";
    let mut vm = Vm::new();
    let mut host = Host::new();
    host.run_source(&mut vm, source);
    assert_eq!(host.run(&mut vm, vec![ret(call("f", Vec::new()))]), num(531.0));
}

#[test]
fn bounds_of_a_for_loop_that_are_no_numbers_count_as_zero_and_a_step_as_one() {
    let source = "function f() n = 0 for i = nothing, '2', 'x' do n = n + 1 end return n end";
    let mut vm = Vm::new();
    let mut host = Host::new();
    host.run_source(&mut vm, source);
    assert_eq!(host.run(&mut vm, vec![ret(call("f", Vec::new()))]), num(3.0));
}

#[test]
fn the_value_of_a_loop_is_nil() {
    let source = "function f() for i = 1, 2 do x = i end end";
    let mut vm = Vm::new();
    let mut host = Host::new();
    host.run_source(&mut vm, source);
    assert_eq!(host.run(&mut vm, vec![ret(call("f", Vec::new()))]), Value::Nil);
    assert_eq!(global(&mut vm, "x"), num(2.0));
    assert_eq!(global(&mut vm, "i"), Value::Nil);
}

#[test]
fn a_function_definition_binds_a_global() {
    let mut vm = Vm::new();
    let mut host = Host::new();
    assert_eq!(host.run_source(&mut vm, "function f(a, b) return a end"), Value::Nil);
    match global(&mut vm, "f") {
        Value::Function(Function::UserDefined { parameters, body, closure }) => {
            assert_eq!(parameters, vec!["a".to_string(), "b".to_string()]);
            assert_eq!(body.len(), 1);
            assert!(closure.is_empty());
        }
        other => panic!("{:?}", other),
    }
}

#[test]
fn parameters_are_bound_by_position() {
    let mut vm = Vm::new();
    let mut host = Host::new();
    host.run_source(&mut vm, "function first(a, b) return a end function second(a, b) return b end");
    assert_eq!(host.run(&mut vm, vec![ret(call("first", vec![lit("1"), lit("2")]))]), num(1.0));
    assert_eq!(host.run(&mut vm, vec![ret(call("second", vec![lit("1"), lit("2")]))]), num(2.0));
    assert_eq!(host.run(&mut vm, vec![ret(call("second", vec![lit("1")]))]), Value::Nil);
    assert_eq!(host.run(&mut vm, vec![ret(call("second", Vec::new()))]), Value::Nil);
    assert_eq!(
        host.run(&mut vm, vec![ret(call("second", vec![lit("1"), lit("2"), lit("3")]))]),
        num(2.0)
    );
}

#[test]
fn arguments_are_evaluated_from_left_to_right_also_those_left_over() {
    let mut vm = Vm::new();
    let mut host = Host::new();
    host.run_source(&mut vm, "function f(a) return a end");
    let arguments = vec![
        call("print", vec![string("one")]),
        call("print", vec![string("two")]),
        call("print", vec![string("three")]),
    ];
    assert_eq!(host.run(&mut vm, vec![ret(call("f", arguments))]), Value::Nil);
    assert_eq!(host.lines, vec!["one".to_string(), "two".to_string(), "three".to_string()]);
}

#[test]
fn the_callee_is_looked_up_before_the_arguments_are_evaluated() {
    let mut vm = Vm::new();
    let mut host = Host::new();
    host.run_source(
        &mut vm,
        "function f() return 'old' end function swap() function f() return 'new' end end",
    );
    let value = host.run(&mut vm, vec![ret(call("f", vec![call("swap", Vec::new())]))]);
    assert_eq!(value, text("old"));
    assert_eq!(host.run(&mut vm, vec![ret(call("f", Vec::new()))]), text("new"));
}

#[test]
fn return_does_not_end_a_function() {
    let mut vm = Vm::new();
    let mut host = Host::new();
    host.run_source(&mut vm, "function f() return 1 x = 5 end function g() return 1 2 end");
    assert_eq!(host.run(&mut vm, vec![ret(call("f", Vec::new()))]), Value::Nil);
    assert_eq!(global(&mut vm, "x"), num(5.0));
    assert_eq!(host.run(&mut vm, vec![ret(call("g", Vec::new()))]), num(2.0));
    assert_eq!(eval_source("return 1 return 2"), num(2.0));
}

#[test]
fn return_keeps_its_first_value_and_evaluates_the_others() {
    assert_eq!(eval_source("return 1, 2, 3"), num(1.0));
    let mut host = Host::new();
    let stmts = vec![Stmt::Return(Some(vec![
        string("kept"),
        call("print", vec![string("second")]),
        call("print", vec![string("third")]),
    ]))];
    assert_eq!(host.run(&mut Vm::new(), stmts), text("kept"));
    assert_eq!(host.lines, vec!["second".to_string(), "third".to_string()]);
    assert_eq!(eval_stmts(vec![Stmt::Return(None)]), Value::Nil);
    assert_eq!(eval_stmts(vec![Stmt::Return(Some(Vec::new()))]), Value::Nil);
}

#[test]
fn the_value_of_a_call_is_that_of_the_last_statement_of_the_body() {
    let mut vm = Vm::new();
    let mut host = Host::new();
    host.run_source(&mut vm, "function f() end function g() 1 'last' end function h() 1 x = 2 end");
    assert_eq!(host.run(&mut vm, vec![ret(call("f", Vec::new()))]), Value::Nil);
    assert_eq!(host.run(&mut vm, vec![ret(call("g", Vec::new()))]), text("last"));
    assert_eq!(host.run(&mut vm, vec![ret(call("h", Vec::new()))]), Value::Nil);
}

#[test]
fn locals_live_in_the_frame_of_the_call() {
    let mut vm = Vm::new();
    let mut host = Host::new();
    host.run_source(&mut vm, "function f(a) local b = a + 1 return b * 2 end");
    assert_eq!(host.run(&mut vm, vec![ret(call("f", vec![lit("4")]))]), num(10.0));
    assert_eq!(global(&mut vm, "a"), Value::Nil);
    assert_eq!(global(&mut vm, "b"), Value::Nil);
}

#[test]
fn local_declarations_pad_with_nil() {
    let mut vm = Vm::new();
    let mut host = Host::new();
    host.run_source(&mut vm, "function f() local a, b = 1 return b end function g() local a return a end function h() local a, b = 1, 2, 3 return a + b end");
    assert_eq!(host.run(&mut vm, vec![ret(call("f", Vec::new()))]), Value::Nil);
    assert_eq!(host.run(&mut vm, vec![ret(call("g", Vec::new()))]), Value::Nil);
    assert_eq!(host.run(&mut vm, vec![ret(call("h", Vec::new()))]), num(3.0));
}

#[test]
fn reads_prefer_locals_and_plain_assignments_write_globals() {
    let mut vm = Vm::new();
    let mut host = Host::new();
    host.run_source(&mut vm, "x = 'global' function f() local x = 'local' x = 'written' return x end");
    assert_eq!(host.run(&mut vm, vec![ret(call("f", Vec::new()))]), text("local"));
    assert_eq!(global(&mut vm, "x"), text("written"));
    host.run_source(&mut vm, "function g(p) p = 1 return p end");
    assert_eq!(host.run(&mut vm, vec![ret(call("g", vec![string("arg")]))]), text("arg"));
    assert_eq!(global(&mut vm, "p"), num(1.0));
}

#[test]
fn free_variables_are_looked_up_in_the_frames_of_the_callers() {
    let mut vm = Vm::new();
    let mut host = Host::new();
    host.run_source(
        &mut vm,
        "v = 'global' function inner() return v end function outer() local v = 'caller' return 0 end",
    );
    assert_eq!(host.run(&mut vm, vec![ret(call("inner", Vec::new()))]), text("global"));
    let outer = define(
        "outer",
        &[],
        vec![local("v", string("caller")), ret(call("inner", Vec::new()))],
    );
    host.run(&mut vm, vec![outer]);
    assert_eq!(host.run(&mut vm, vec![ret(call("outer", Vec::new()))]), text("caller"));
    let outer = define("outer", &["v"], vec![ret(call("inner", Vec::new()))]);
    host.run(&mut vm, vec![outer]);
    assert_eq!(host.run(&mut vm, vec![ret(call("outer", vec![string("param")]))]), text("param"));
}

#[test]
fn the_innermost_frame_that_binds_a_name_wins() {
    let mut vm = Vm::new();
    let mut host = Host::new();
    let show = define("show", &[], vec![ret(id("v"))]);
    let middle = define("middle", &[], vec![local("v", string("middle")), ret(call("show", Vec::new()))]);
    let outer = define("outer", &[], vec![local("v", string("outer")), ret(call("middle", Vec::new()))]);
    let plain = define("plain", &[], vec![ret(call("show", Vec::new()))]);
    let around = define("around", &[], vec![local("v", string("around")), ret(call("plain", Vec::new()))]);
    host.run(&mut vm, vec![show, middle, outer, plain, around]);
    assert_eq!(host.run(&mut vm, vec![ret(call("outer", Vec::new()))]), text("middle"));
    assert_eq!(host.run(&mut vm, vec![ret(call("around", Vec::new()))]), text("around"));
    assert_eq!(host.run(&mut vm, vec![ret(call("show", Vec::new()))]), Value::Nil);
}

#[test]
fn a_frame_is_closed_when_its_call_ends() {
    let mut vm = Vm::new();
    let mut host = Host::new();
    let leak = define("leak", &[], vec![local("hidden", lit("1")), ret(lit("0"))]);
    let peek = define("peek", &[], vec![Stmt::Expr(call("leak", Vec::new())), ret(id("hidden"))]);
    host.run(&mut vm, vec![leak, peek]);
    assert_eq!(host.run(&mut vm, vec![ret(call("peek", Vec::new()))]), Value::Nil);
}

#[test]
fn recursion() {
    let mut vm = Vm::new();
    let mut host = Host::new();
    let body = vec![Stmt::If {
        condition: binary(id("n"), BinaryOperator::LessEqual, lit("1")),
        then_block: vec![lit("1")].into_iter().map(Stmt::Expr).collect(),
        else_if_blocks: Vec::new(),
        else_block: Some(vec![Stmt::Expr(binary(
            id("n"),
            BinaryOperator::Multiply,
            call("fact", vec![binary(id("n"), BinaryOperator::Subtract, lit("1"))]),
        ))]),
    }];
    host.run(&mut vm, vec![define("fact", &["n"], body)]);
    assert_eq!(host.run(&mut vm, vec![ret(call("fact", vec![lit("5")]))]), num(120.0));
    assert_eq!(host.run(&mut vm, vec![ret(call("fact", vec![lit("10")]))]), num(3628800.0));
}

#[test]
fn local_functions_are_bound_in_the_frame() {
    let mut vm = Vm::new();
    let mut host = Host::new();
    let inner = Stmt::LocalFunction {
        name: "helper".to_string(),
        parameters: vec!["x".to_string()],
        body: vec![ret(binary(id("x"), BinaryOperator::Add, lit("1")))],
    };
    let outer = define("outer", &[], vec![inner, ret(call("helper", vec![lit("41")]))]);
    host.run(&mut vm, vec![outer]);
    assert_eq!(host.run(&mut vm, vec![ret(call("outer", Vec::new()))]), num(42.0));
    assert_eq!(global(&mut vm, "helper"), Value::Nil);
}

/// Runs the statements until they finish or a frame is missing; says
/// whether a frame was missing, and after how many requests.
fn misses_a_frame(stmts: Vec<Stmt>) -> (bool, usize) {
    let mut vm = Vm::new();
    let mut host = Host::new();
    vm.execute(stmts);
    let mut reply = Reply::Nothing;
    for _ in 0..10_000 {
        if vm.frame_missing() {
            return (true, host.requests);
        }
        match vm.step(reply) {
            Status::Running => reply = Reply::Nothing,
            Status::Waiting(request) => reply = host.answer(request),
            Status::Finished(_) => return (false, host.requests),
        }
    }
    panic!("the program did not finish");
}

fn source_misses_a_frame(source: &str) -> (bool, usize) {
    let tokens = Lexer::new(source.to_string()).tokenize();
    misses_a_frame(Parser::new(tokens).parse())
}

#[test]
fn a_local_declaration_outside_every_function_has_no_frame() {
    assert_eq!(source_misses_a_frame("local x = 1"), (true, 1));
    assert_eq!(source_misses_a_frame("local x"), (true, 0));
    assert_eq!(source_misses_a_frame("x = 1 local y = x + 1 z = 2"), (true, 3));
    assert_eq!(source_misses_a_frame("x = 1"), (false, 1));
}

#[test]
fn the_values_of_a_local_declaration_are_evaluated_before_the_frame_is_missed() {
    let mut vm = Vm::new();
    let mut host = Host::new();
    vm.execute(vec![local("x", call("print", vec![string("evaluated")]))]);
    let mut reply = Reply::Nothing;
    while !vm.frame_missing() {
        match vm.step(reply) {
            Status::Running => reply = Reply::Nothing,
            Status::Waiting(request) => reply = host.answer(request),
            Status::Finished(value) => panic!("{:?}", value),
        }
    }
    assert_eq!(host.lines, vec!["evaluated".to_string()]);
}

#[test]
fn a_for_loop_outside_every_function_has_no_frame() {
    assert_eq!(source_misses_a_frame("for i = 1, 3 do x = i end"), (true, 2));
    assert_eq!(source_misses_a_frame("for i = 3, 1, -1 do x = i end"), (true, 3));
}

#[test]
fn a_local_function_outside_every_function_has_no_frame() {
    assert_eq!(source_misses_a_frame("local function f() end"), (true, 0));
    assert_eq!(source_misses_a_frame("function f() local function g() end end"), (false, 0));
}

#[test]
fn a_for_loop_without_a_turn_needs_no_frame() {
    assert_eq!(eval_source("for i = 3, 1 do x = i end"), Value::Nil);
    assert_eq!(eval_source("for i = 1, 3, 0 do x = i end"), Value::Nil);
}

#[test]
fn print_writes_its_arguments_joined_by_tabs() {
    let mut host = Host::new();
    let mut vm = Vm::new();
    let stmts = vec![
        Stmt::Expr(call("print", vec![string("a"), lit("1"), Expr::Nil, Expr::Boolean(true)])),
        Stmt::Expr(call("print", Vec::new())),
        Stmt::Expr(call("print", vec![lit("1.5"), lit("2")])),
        Stmt::Expr(call("print", vec![table(Vec::new()), id("print")])),
        ret(call("print", vec![string("last")])),
    ];
    assert_eq!(host.run(&mut vm, stmts), Value::Nil);
    assert_eq!(
        host.lines,
        vec![
            "a\t1\tnil\ttrue".to_string(),
            "".to_string(),
            "1.5\t2".to_string(),
            "table\tfunction".to_string(),
            "last".to_string(),
        ]
    );
}

#[test]
fn type_names() {
    assert_eq!(eval_expr(call("type", vec![Expr::Nil])), text("nil"));
    assert_eq!(eval_expr(call("type", vec![Expr::Boolean(false)])), text("boolean"));
    assert_eq!(eval_expr(call("type", vec![lit("1")])), text("number"));
    assert_eq!(eval_expr(call("type", vec![string("1")])), text("string"));
    assert_eq!(eval_expr(call("type", vec![table(Vec::new())])), text("table"));
    assert_eq!(eval_expr(call("type", vec![id("type")])), text("function"));
    assert_eq!(eval_expr(call("type", Vec::new())), Value::Nil);
    assert_eq!(eval_expr(call("type", vec![lit("1"), lit("2")])), Value::Nil);
    let stmts = vec![define("f", &[], Vec::new()), ret(call("type", vec![id("f")]))];
    assert_eq!(eval_stmts(stmts), text("function"));
}

#[test]
fn tonumber() {
    assert_eq!(eval_expr(call("tonumber", vec![lit("5")])), num(5.0));
    assert_eq!(eval_expr(call("tonumber", vec![string("5.5")])), num(5.5));
    assert_eq!(eval_expr(call("tonumber", vec![string("-2")])), num(-2.0));
    assert_eq!(eval_expr(call("tonumber", vec![string("x")])), Value::Nil);
    assert_eq!(eval_expr(call("tonumber", vec![Expr::Boolean(true)])), num(1.0));
    assert_eq!(eval_expr(call("tonumber", vec![Expr::Boolean(false)])), num(0.0));
    assert_eq!(eval_expr(call("tonumber", vec![Expr::Nil])), Value::Nil);
    assert_eq!(eval_expr(call("tonumber", vec![table(Vec::new())])), Value::Nil);
    assert_eq!(eval_expr(call("tonumber", Vec::new())), Value::Nil);
    assert_eq!(eval_expr(call("tonumber", vec![string("7"), string("x")])), num(7.0));
}

#[test]
fn tostring() {
    assert_eq!(eval_expr(call("tostring", vec![lit("5")])), text("5"));
    assert_eq!(eval_expr(call("tostring", vec![lit("2.50")])), text("2.5"));
    assert_eq!(eval_expr(call("tostring", vec![string("s")])), text("s"));
    assert_eq!(eval_expr(call("tostring", vec![Expr::Nil])), text("nil"));
    assert_eq!(eval_expr(call("tostring", vec![Expr::Boolean(true)])), text("true"));
    assert_eq!(eval_expr(call("tostring", vec![table(Vec::new())])), text("table"));
    assert_eq!(eval_expr(call("tostring", vec![id("tostring")])), text("function"));
    assert_eq!(eval_expr(call("tostring", Vec::new())), text(""));
    assert_eq!(eval_expr(call("tostring", vec![lit("1"), lit("2")])), text("1"));
}

#[test]
fn a_builtin_can_be_replaced() {
    let mut vm = Vm::new();
    let mut host = Host::new();
    host.run_source(&mut vm, "function type(x) return 'mine' end");
    assert_eq!(host.run(&mut vm, vec![ret(call("type", vec![lit("1")]))]), text("mine"));
    host.run_source(&mut vm, "print = 5");
    assert_eq!(host.run(&mut vm, vec![ret(call("print", vec![lit("1")]))]), Value::Nil);
    assert!(host.lines.is_empty());
}

#[test]
fn table_constructors_and_access() {
    let t = table(vec![
        TableField::Value(string("a")),
        TableField::Value(string("b")),
        TableField::KeyValue("k".to_string(), lit("7")),
        TableField::Value(string("c")),
    ]);
    let stmts = |key: Expr| vec![set("t", table_copy(&t)), ret(index(id("t"), key))];
    assert_eq!(eval_stmts(stmts(lit("1"))), text("a"));
    assert_eq!(eval_stmts(stmts(lit("2"))), text("b"));
    assert_eq!(eval_stmts(stmts(lit("3"))), Value::Nil);
    assert_eq!(eval_stmts(stmts(lit("4"))), text("c"));
    assert_eq!(eval_stmts(stmts(string("k"))), num(7.0));
    assert_eq!(eval_stmts(stmts(string("1"))), Value::Nil);
    assert_eq!(eval_stmts(stmts(string("missing"))), Value::Nil);
    assert_eq!(eval_stmts(stmts(Expr::Nil)), Value::Nil);
    assert_eq!(eval_stmts(stmts(lit("1.0"))), text("a"));
}

fn table_copy(expr: &Expr) -> Expr {
    expr.clone()
}

#[test]
fn a_later_field_with_an_equal_key_replaces_the_earlier_one() {
    let t = table(vec![
        TableField::KeyValue("k".to_string(), lit("1")),
        TableField::KeyValue("k".to_string(), lit("2")),
    ]);
    assert_eq!(eval_expr(index(table_copy(&t), string("k"))), num(2.0));
    assert_eq!(eval_expr(unary(UnaryOperator::Length, t)), num(1.0));
}

#[test]
fn indexing_what_is_no_table_gives_nil() {
    assert_eq!(eval_expr(index(lit("5"), lit("1"))), Value::Nil);
    assert_eq!(eval_expr(index(string("abc"), lit("1"))), Value::Nil);
    assert_eq!(eval_expr(index(id("nothing"), string("k"))), Value::Nil);
    assert_eq!(eval_expr(index(id("print"), lit("1"))), Value::Nil);
}

#[test]
fn tables_are_shared_not_copied() {
    let stmts = vec![
        set("t", table(vec![TableField::Value(lit("9"))])),
        set("u", id("t")),
        ret(index(id("u"), lit("1"))),
    ];
    assert_eq!(eval_stmts(stmts), num(9.0));
}

#[test]
fn the_host_is_asked_for_every_literal_sum_and_text() {
    let mut host = Host::new();
    assert_eq!(host.run_source(&mut Vm::new(), "return 1 + 2"), num(3.0));
    assert_eq!(host.requests, 3);
    let mut host = Host::new();
    assert_eq!(host.run_source(&mut Vm::new(), "return 'a' == 'b'"), Value::Boolean(false));
    assert_eq!(host.requests, 0);
    let mut host = Host::new();
    assert_eq!(host.run_source(&mut Vm::new(), "return '1' + '2'"), num(3.0));
    assert_eq!(host.requests, 3);
}

#[test]
fn an_answer_of_the_wrong_kind_counts_as_none() {
    let mut vm = Vm::new();
    vm.execute(vec![ret(binary(lit("1"), BinaryOperator::Add, lit("2")))]);
    let mut reply = Reply::Nothing;
    let value = loop {
        match vm.step(reply) {
            Status::Running => reply = Reply::Nothing,
            Status::Waiting(Request::Parse(_)) => reply = Reply::Text("no number".to_string()),
            Status::Waiting(_) => reply = Reply::Nothing,
            Status::Finished(value) => break value,
        }
    };
    assert_eq!(value, Value::Nil);
    let mut vm = Vm::new();
    vm.execute(vec![ret(binary(string("a"), BinaryOperator::Concat, lit("1")))]);
    let mut reply = Reply::Nothing;
    let value = loop {
        match vm.step(reply) {
            Status::Running => reply = Reply::Nothing,
            Status::Waiting(Request::Parse(_)) => {
                reply = Reply::Number(Number { bits: 1.0f64.to_bits() })
            }
            Status::Waiting(_) => reply = Reply::Nothing,
            Status::Finished(value) => break value,
        }
    };
    assert_eq!(value, text("a"));
}

#[test]
fn giving_new_statements_drops_what_was_left_to_do() {
    let mut vm = Vm::new();
    let mut host = Host::new();
    vm.execute(vec![set("x", lit("1")), set("y", lit("2"))]);
    for _ in 0..3 {
        let _ = vm.step(Reply::Nothing);
    }
    assert_eq!(host.run_source(&mut vm, "return 'fresh'"), text("fresh"));
    assert_eq!(global(&mut vm, "y"), Value::Nil);
}

#[test]
fn running_stops_where_the_host_is_needed() {
    let mut vm = Vm::new();
    vm.execute(vec![set("x", string("a")), ret(binary(id("x"), BinaryOperator::Concat, lit("1")))]);
    let status = vm.run(Reply::Nothing, usize::MAX);
    assert!(matches!(status, Status::Waiting(Request::Parse(text)) if text == "1"));
    let status = vm.run(Reply::Number(Number { bits: 1.0f64.to_bits() }), usize::MAX);
    assert!(matches!(status, Status::Waiting(Request::Format(n)) if n.bits == 1.0f64.to_bits()));
    let status = vm.run(Reply::Text("1".to_string()), usize::MAX);
    assert!(matches!(status, Status::Finished(Value::String(text)) if text == "a1"));
}

#[test]
fn running_stops_at_the_limit() {
    let mut vm = Vm::new();
    vm.execute(vec![Stmt::While { condition: Expr::Boolean(true), body: vec![Stmt::Break] }]);
    for limit in [0, 1, 7, 1000] {
        assert!(matches!(vm.run(Reply::Nothing, limit), Status::Running));
        assert!(!vm.frame_missing());
    }
}

#[test]
fn running_stops_where_a_frame_is_missing() {
    let mut vm = Vm::new();
    vm.execute(vec![local("x", Expr::Nil), set("y", string("not reached"))]);
    assert!(matches!(vm.run(Reply::Nothing, usize::MAX), Status::Running));
    assert!(vm.frame_missing());
    assert!(matches!(vm.run(Reply::Nothing, usize::MAX), Status::Running));
    assert!(vm.frame_missing());
    assert_eq!(global(&mut vm, "y"), Value::Nil);
}

#[test]
fn running_and_stepping_agree() {
    let program = || {
        vec![
            set("n", lit("0")),
            Stmt::While {
                condition: binary(id("n"), BinaryOperator::LessThan, lit("4")),
                body: vec![set("n", binary(id("n"), BinaryOperator::Add, lit("1")))],
            },
            ret(binary(id("n"), BinaryOperator::Multiply, lit("10"))),
        ]
    };
    let stepped = eval_stmts(program());
    let mut vm = Vm::new();
    let mut host = Host::new();
    vm.execute(program());
    let mut reply = Reply::Nothing;
    let ran = loop {
        match vm.run(reply, 3) {
            Status::Running => reply = Reply::Nothing,
            Status::Waiting(request) => reply = host.answer(request),
            Status::Finished(value) => break value,
        }
    };
    assert_eq!(stepped, num(40.0));
    assert_eq!(ran, num(40.0));
}
