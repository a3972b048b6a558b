use lua_interpreter::ast::{BinaryOperator, Expr, Stmt, TableField, UnaryOperator};
use lua_interpreter::lexer::{Lexer, Token};
use lua_interpreter::parser::{parse_source, Parser};

fn parse(source: &str) -> Vec<Stmt> {
    let tokens = Lexer::new(source.to_string()).tokenize();
    Parser::new(tokens).parse()
}

fn show_expr(expr: &Expr) -> String {
    match expr {
        Expr::Number(text) => text.clone(),
        Expr::String(text) => format!("{:?}", text),
        Expr::Boolean(b) => format!("{}", b),
        Expr::Nil => "nil".to_string(),
        Expr::Identifier(name) => name.clone(),
        Expr::UnaryOp { operator, operand } => format!("({:?} {})", operator, show_expr(operand)),
        Expr::BinaryOp { left, operator, right } => {
            format!("({} {:?} {})", show_expr(left), operator, show_expr(right))
        }
        Expr::FunctionCall { name, arguments } => format!("{}({})", name, show_exprs(arguments)),
        Expr::TableAccess { table, key } => format!("{}[{}]", show_expr(table), show_expr(key)),
        Expr::TableConstructor { fields } => {
            let fields: Vec<String> = fields
                .iter()
                .map(|f| match f {
                    TableField::Value(e) => show_expr(e),
                    TableField::KeyValue(name, e) => format!("{}={}", name, show_expr(e)),
                })
                .collect();
            format!("{{{}}}", fields.join(", "))
        }
    }
}

fn show_exprs(exprs: &[Expr]) -> String {
    let shown: Vec<String> = exprs.iter().map(show_expr).collect();
    shown.join(", ")
}

fn show_block(stmts: &[Stmt]) -> String {
    let shown: Vec<String> = stmts.iter().map(show_stmt).collect();
    format!("[{}]", shown.join("; "))
}

fn show_stmt(stmt: &Stmt) -> String {
    match stmt {
        Stmt::Expr(e) => format!("expr {}", show_expr(e)),
        Stmt::Assignment { variables, values } => {
            format!("set {} = {}", variables.join(", "), show_exprs(values))
        }
        Stmt::LocalAssignment { variables, values } => {
            format!("local {} = {}", variables.join(", "), show_exprs(values))
        }
        Stmt::If { condition, then_block, else_if_blocks, else_block } => {
            let mut text = format!("if {} {}", show_expr(condition), show_block(then_block));
            for (c, b) in else_if_blocks {
                text.push_str(&format!(" elseif {} {}", show_expr(c), show_block(b)));
            }
            if let Some(b) = else_block {
                text.push_str(&format!(" else {}", show_block(b)));
            }
            text
        }
        Stmt::While { condition, body } => {
            format!("while {} {}", show_expr(condition), show_block(body))
        }
        Stmt::Repeat { body, condition } => {
            format!("repeat {} until {}", show_block(body), show_expr(condition))
        }
        Stmt::For { variable, start, end, step, body } => {
            let step = match step {
                Some(e) => format!(", {}", show_expr(e)),
                None => String::new(),
            };
            format!(
                "for {} = {}, {}{} {}",
                variable,
                show_expr(start),
                show_expr(end),
                step,
                show_block(body)
            )
        }
        Stmt::Function { name, parameters, body } => {
            format!("function {}({}) {}", name, parameters.join(", "), show_block(body))
        }
        Stmt::LocalFunction { name, parameters, body } => {
            format!("local function {}({}) {}", name, parameters.join(", "), show_block(body))
        }
        Stmt::Return(None) => "return".to_string(),
        Stmt::Return(Some(values)) => format!("return {}", show_exprs(values)),
        Stmt::Break => "break".to_string(),
    }
}

fn shown(source: &str) -> String {
    show_block(&parse(source))
}

#[test]
fn empty_input_parses_to_nothing() {
    assert_eq!(shown(""), "[]");
    assert_eq!(shown("-- only a comment"), "[]");
    assert!(Parser::new(Vec::new()).parse().is_empty());
    assert!(Parser::new(vec![Token::EOF]).parse().is_empty());
}

#[test]
fn tokens_behind_the_end_marker_are_not_read() {
    let tokens = vec![
        Token::Identifier("a".to_string()),
        Token::EOF,
        Token::Identifier("b".to_string()),
    ];
    assert_eq!(show_block(&Parser::new(tokens).parse()), "[expr a]");
}

#[test]
fn primary_expressions() {
    assert_eq!(shown("42"), "[expr 42]");
    assert_eq!(shown("3.5"), "[expr 3.5]");
    assert_eq!(shown("'hi'"), "[expr \"hi\"]");
    assert_eq!(shown("x"), "[expr x]");
    assert_eq!(shown("nil"), "[expr nil]");
    assert_eq!(shown("(x)"), "[expr x]");
    assert_eq!(shown("((x))"), "[expr x]");
}

#[test]
fn literal_tokens_for_booleans_and_nil_are_primary_expressions() {
    let tokens = vec![Token::Boolean(true), Token::Nil, Token::Boolean(false), Token::EOF];
    let stmts = Parser::new(tokens).parse();
    assert_eq!(stmts.len(), 3);
    assert!(matches!(stmts[0], Stmt::Expr(Expr::Boolean(true))));
    assert!(matches!(stmts[1], Stmt::Expr(Expr::Nil)));
    assert!(matches!(stmts[2], Stmt::Expr(Expr::Boolean(false))));
}

#[test]
fn a_closing_parenthesis_is_optional() {
    assert_eq!(shown("(x"), "[expr x]");
    assert_eq!(shown("(1 + 2"), "[expr (1 Add 2)]");
}

#[test]
fn binary_operators_chain_from_the_left_without_precedence() {
    assert_eq!(shown("1 + 2 * 3"), "[expr ((1 Add 2) Multiply 3)]");
    assert_eq!(shown("1 * 2 + 3"), "[expr ((1 Multiply 2) Add 3)]");
    assert_eq!(shown("a < b and c"), "[expr ((a LessThan b) And c)]");
    assert_eq!(shown("a or b == c"), "[expr ((a Or b) Equal c)]");
    assert_eq!(shown("2 ^ 3 ^ 2"), "[expr ((2 Power 3) Power 2)]");
    assert_eq!(shown("1 - 2 - 3 - 4"), "[expr (((1 Subtract 2) Subtract 3) Subtract 4)]");
}

#[test]
fn parentheses_group() {
    assert_eq!(shown("1 + (2 * 3)"), "[expr (1 Add (2 Multiply 3))]");
    assert_eq!(shown("(1 + 2) * 3"), "[expr ((1 Add 2) Multiply 3)]");
}

#[test]
fn every_binary_operator_is_in_the_chain() {
    let cases = [
        ("+", BinaryOperator::Add),
        ("-", BinaryOperator::Subtract),
        ("*", BinaryOperator::Multiply),
        ("/", BinaryOperator::Divide),
        ("%", BinaryOperator::Modulo),
        ("^", BinaryOperator::Power),
        ("..", BinaryOperator::Concat),
        ("==", BinaryOperator::Equal),
        ("~=", BinaryOperator::NotEqual),
        ("<", BinaryOperator::LessThan),
        ("<=", BinaryOperator::LessEqual),
        (">", BinaryOperator::GreaterThan),
        (">=", BinaryOperator::GreaterEqual),
        ("and", BinaryOperator::And),
        ("or", BinaryOperator::Or),
    ];
    for (text, expected) in cases {
        let stmts = parse(&format!("a {} b", text));
        assert_eq!(stmts.len(), 1, "{}", text);
        match &stmts[0] {
            Stmt::Expr(Expr::BinaryOp { operator, .. }) => assert_eq!(*operator, expected),
            other => panic!("{:?}", other),
        }
    }
}

#[test]
fn unary_operators_bind_tighter_and_nest_to_the_right() {
    assert_eq!(shown("- - x"), "[expr (Minus (Minus x))]");
    assert_eq!(shown("not not x"), "[expr (Not (Not x))]");
    assert_eq!(shown("-x + y"), "[expr ((Minus x) Add y)]");
    assert_eq!(shown("x + -y"), "[expr (x Add (Minus y))]");
    assert_eq!(shown("#s == 3"), "[expr ((Length s) Equal 3)]");
    assert_eq!(shown("not a and b"), "[expr ((Not a) And b)]");
    assert_eq!(shown("- # not x"), "[expr (Minus (Length (Not x)))]");
    let stmts = parse("-x");
    assert!(matches!(
        &stmts[0],
        Stmt::Expr(Expr::UnaryOp { operator: UnaryOperator::Minus, .. })
    ));
}

#[test]
fn assignment_to_one_or_more_names() {
    assert_eq!(shown("a = 1"), "[set a = 1]");
    assert_eq!(shown("a = 1 + 2 * 3"), "[set a = ((1 Add 2) Multiply 3)]");
    assert_eq!(shown("a, b = 1, 2"), "[set a, b = 1, 2]");
    assert_eq!(shown("a, b, c = 1"), "[set a, b, c = 1]");
    assert_eq!(shown("a = 1, 2, 3"), "[set a = 1, 2, 3]");
    assert_eq!(shown("a = 1 b = 2"), "[set a = 1; set b = 2]");
}

#[test]
fn only_identifiers_are_assignment_targets() {
    assert_eq!(shown("1 = 2"), "[expr 2]");
    assert_eq!(shown("a, 1 = 2"), "[expr 2]");
    assert_eq!(shown("(a) = 2"), "[set a = 2]");
}

#[test]
fn an_assignment_without_values_is_left_out() {
    assert_eq!(shown("a ="), "[]");
    assert_eq!(shown("a = b = 1"), "[set a = b; expr 1]");
}

#[test]
fn local_declarations() {
    assert_eq!(shown("local a"), "[local a = ]");
    assert_eq!(shown("local a = 1"), "[local a = 1]");
    assert_eq!(shown("local a, b = 1, 2"), "[local a, b = 1, 2]");
    assert_eq!(shown("local a, b, c = 1"), "[local a, b, c = 1]");
    assert_eq!(shown("local a = 1, 2"), "[local a = 1, 2]");
    assert_eq!(shown("local 1"), "[]");
    assert_eq!(shown("local"), "[]");
    assert_eq!(shown("local a ="), "[]");
}

#[test]
fn function_definitions() {
    assert_eq!(shown("function f() end"), "[function f() []]");
    assert_eq!(shown("function f(a) return a end"), "[function f(a) [return a]]");
    assert_eq!(
        shown("function add(a, b) return a + b end"),
        "[function add(a, b) [return (a Add b)]]"
    );
    assert_eq!(shown("local function f(x) x = 1 end"), "[local function f(x) [set x = 1]]");
    assert_eq!(shown("function f(a) end b"), "[function f(a) []; expr b]");
}

#[test]
fn malformed_function_definitions_are_left_out() {
    assert_eq!(shown("function"), "[]");
    assert_eq!(shown("function 1"), "[]");
    assert_eq!(shown("function f(1) end"), "[]");
    assert_eq!(shown("function f(a,) end"), "[]");
}

#[test]
fn the_parentheses_and_the_end_of_a_function_are_optional() {
    assert_eq!(shown("function f a return a end"), "[function f(a) [return a]]");
    assert_eq!(shown("function f() return 1"), "[function f() [return 1]]");
}

#[test]
fn conditionals() {
    assert_eq!(shown("if a then b end"), "[if a [expr b]]");
    assert_eq!(shown("if a then b else c end"), "[if a [expr b] else [expr c]]");
    assert_eq!(
        shown("if a then b elseif c then d end"),
        "[if a [expr b] elseif c [expr d]]"
    );
    assert_eq!(
        shown("if a then b elseif c then d elseif e then f else g end h"),
        "[if a [expr b] elseif c [expr d] elseif e [expr f] else [expr g]; expr h]"
    );
    assert_eq!(shown("if a then else end"), "[if a [] else []]");
    assert_eq!(
        shown("if a then if b then c end else d end"),
        "[if a [if b [expr c]] else [expr d]]"
    );
}

#[test]
fn a_conditional_without_condition_is_left_out() {
    assert_eq!(shown("if"), "[]");
    assert_eq!(shown("if then x end"), "[expr x]");
    assert_eq!(shown("if a then b elseif then c end"), "[expr c]");
}

#[test]
fn loops() {
    assert_eq!(shown("while a do b end"), "[while a [expr b]]");
    assert_eq!(shown("while a < 3 do a = a + 1 end"), "[while (a LessThan 3) [set a = (a Add 1)]]");
    assert_eq!(shown("repeat a until b"), "[repeat [expr a] until b]");
    assert_eq!(shown("repeat a = a + 1 until a > 3 c"), "[repeat [set a = (a Add 1)] until (a GreaterThan 3); expr c]");
    assert_eq!(shown("for i = 1, 3 do x end"), "[for i = 1, 3 [expr x]]");
    assert_eq!(shown("for i = 1, 10, 2 do x end y"), "[for i = 1, 10, 2 [expr x]; expr y]");
    assert_eq!(shown("for i = a + 1, b do end"), "[for i = (a Add 1), b []]");
}

#[test]
fn malformed_loops_are_left_out() {
    assert_eq!(shown("while"), "[]");
    assert_eq!(shown("repeat a until"), "[]");
    assert_eq!(shown("for 1 = 1, 2 do end"), "[expr 2]");
    assert_eq!(shown("for i = 1 do end"), "[]");
    assert_eq!(shown("for i = 1, 2, do end"), "[]");
}

#[test]
fn break_is_a_statement_of_one_token() {
    assert_eq!(shown("break"), "[break]");
    assert_eq!(shown("while a do break end b"), "[while a [break]; expr b]");
    assert_eq!(
        shown("while x < 3 do x = x + 1 break end return x"),
        "[while (x LessThan 3) [set x = (x Add 1); break]; return x]"
    );
}

#[test]
fn return_with_and_without_values() {
    assert_eq!(shown("return"), "[return]");
    assert_eq!(shown("return 1"), "[return 1]");
    assert_eq!(shown("return 1, 2, 3"), "[return 1, 2, 3]");
    assert_eq!(shown("return a == b"), "[return (a Equal b)]");
    assert_eq!(shown("function f() return end"), "[function f() [return]]");
    assert_eq!(shown("if a then return else return 1 end"), "[if a [return] else [return 1]]");
    assert_eq!(shown("repeat return until a"), "[repeat [return] until a]");
    assert_eq!(shown("return ;"), "[]");
}

#[test]
fn what_cannot_be_parsed_is_left_out_and_parsing_goes_on() {
    assert_eq!(shown("x = nil; return x == nil"), "[set x = nil; return (x Equal nil)]");
    assert_eq!(shown(") a"), "[expr a]");
    assert_eq!(shown("a ) b"), "[expr a; expr b]");
    assert_eq!(shown("end a"), "[expr a]");
    assert_eq!(shown("a + ; b"), "[expr b]");
    assert_eq!(shown("true"), "[]");
    assert_eq!(shown("x = true y"), "[expr y]");
    assert_eq!(shown("f(1)"), "[expr f; expr 1]");
    assert_eq!(shown("t[1] = 5"), "[expr t; expr 1; expr 5]");
    assert_eq!(shown("local t = {}"), "[]");
}

#[test]
fn table_constructors_and_indexed_targets_are_not_parsed() {
    assert_eq!(
        shown("local t = {}; t[1] = 5; return #t"),
        "[expr t; expr 1; expr 5; return (Length t)]"
    );
}

#[test]
fn stray_block_closers_end_the_enclosing_block() {
    assert_eq!(shown("while a do b else c end"), "[while a [expr b]; expr c]");
    assert_eq!(shown("function f() a until b end"), "[function f() [expr a]; expr b]");
}

#[test]
fn parsing_again_gives_nothing() {
    let tokens = Lexer::new("a = 1".to_string()).tokenize();
    let mut parser = Parser::new(tokens);
    assert_eq!(show_block(&parser.parse()), "[set a = 1]");
    assert!(parser.parse().is_empty());
}

#[test]
fn statements_and_expressions_can_be_copied() {
    let stmts = parse("if a then b = -1 elseif c then while d do e = 'x' end else return 1, 2 end");
    assert_eq!(stmts.len(), 1);
    let copy = stmts[0].clone();
    assert_eq!(show_stmt(&copy), show_stmt(&stmts[0]));
    let expr = Expr::FunctionCall {
        name: "f".to_string(),
        arguments: vec![
            Expr::TableConstructor {
                fields: vec![
                    TableField::Value(Expr::Number("1".to_string())),
                    TableField::KeyValue("k".to_string(), Expr::Boolean(true)),
                ],
            },
            Expr::TableAccess {
                table: Box::new(Expr::Identifier("t".to_string())),
                key: Box::new(Expr::Nil),
            },
        ],
    };
    assert_eq!(show_expr(&expr.clone()), "f({1, k=true}, t[nil])");
}

#[test]
fn a_source_text_is_lexed_and_parsed_in_one() {
    let source = "x = 1 + 2 * 3 -- nine\nif x then y = 'a' else y = 'b' end";
    assert_eq!(show_block(&parse_source(source.to_string())), shown(source));
    assert_eq!(
        show_block(&parse_source(source.to_string())),
        "[set x = ((1 Add 2) Multiply 3); if x [set y = \"a\"] else [set y = \"b\"]]"
    );
    assert!(parse_source(String::new()).is_empty());
}
