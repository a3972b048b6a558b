//! The syntax tree: expressions and statements, their mathematical values,
//! and verified copies of them.

use vstd::prelude::*;

verus! {

/// An operator with one operand.
#[derive(Debug, Clone, Copy, PartialEq, Eq, Structural)]
pub enum UnaryOperator {
    Not,
    Minus,
    Length,
}

/// An operator with two operands.
#[derive(Debug, Clone, Copy, PartialEq, Eq, Structural)]
pub enum BinaryOperator {
    Add,
    Subtract,
    Multiply,
    Divide,
    Modulo,
    Power,
    Concat,
    Equal,
    NotEqual,
    LessThan,
    LessEqual,
    GreaterThan,
    GreaterEqual,
    And,
    Or,
}

/// An expression. A `Number` holds the text of its literal.
#[derive(Debug)]
#[allow(inconsistent_fields)]
pub enum Expr {
    Number(String),
    String(String),
    Boolean(bool),
    Nil,
    Identifier(String),
    UnaryOp { operator: UnaryOperator, operand: Box<Expr> },
    BinaryOp { left: Box<Expr>, operator: BinaryOperator, right: Box<Expr> },
    FunctionCall { name: String, arguments: Vec<Expr> },
    TableAccess { table: Box<Expr>, key: Box<Expr> },
    TableConstructor { fields: Vec<TableField> },
}

/// One field of a table constructor: a positional value, or a value under a
/// name.
#[derive(Debug)]
pub enum TableField {
    Value(Expr),
    KeyValue(String, Expr),
}

/// A statement.
#[derive(Debug)]
pub enum Stmt {
    Expr(Expr),
    Assignment { variables: Vec<String>, values: Vec<Expr> },
    LocalAssignment { variables: Vec<String>, values: Vec<Expr> },
    If {
        condition: Expr,
        then_block: Vec<Stmt>,
        else_if_blocks: Vec<(Expr, Vec<Stmt>)>,
        else_block: Option<Vec<Stmt>>,
    },
    While { condition: Expr, body: Vec<Stmt> },
    Repeat { body: Vec<Stmt>, condition: Expr },
    For { variable: String, start: Expr, end: Expr, step: Option<Expr>, body: Vec<Stmt> },
    Function { name: String, parameters: Vec<String>, body: Vec<Stmt> },
    LocalFunction { name: String, parameters: Vec<String>, body: Vec<Stmt> },
    Return(Option<Vec<Expr>>),
    Break,
}

/// The mathematical value of an [`Expr`].
#[allow(inconsistent_fields)]
pub enum ExprView {
    Number(Seq<char>),
    String(Seq<char>),
    Boolean(bool),
    Nil,
    Identifier(Seq<char>),
    UnaryOp { operator: UnaryOperator, operand: Box<ExprView> },
    BinaryOp { left: Box<ExprView>, operator: BinaryOperator, right: Box<ExprView> },
    FunctionCall { name: Seq<char>, arguments: Seq<ExprView> },
    TableAccess { table: Box<ExprView>, key: Box<ExprView> },
    TableConstructor { fields: Seq<TableFieldView> },
}

/// The mathematical value of a [`TableField`].
pub enum TableFieldView {
    Value(ExprView),
    KeyValue(Seq<char>, ExprView),
}

/// The mathematical value of a [`Stmt`].
pub enum StmtView {
    Expr(ExprView),
    Assignment { variables: Seq<Seq<char>>, values: Seq<ExprView> },
    LocalAssignment { variables: Seq<Seq<char>>, values: Seq<ExprView> },
    If {
        condition: ExprView,
        then_block: Seq<StmtView>,
        else_if_blocks: Seq<(ExprView, Seq<StmtView>)>,
        else_block: Option<Seq<StmtView>>,
    },
    While { condition: ExprView, body: Seq<StmtView> },
    Repeat { body: Seq<StmtView>, condition: ExprView },
    For {
        variable: Seq<char>,
        start: ExprView,
        end: ExprView,
        step: Option<ExprView>,
        body: Seq<StmtView>,
    },
    Function { name: Seq<char>, parameters: Seq<Seq<char>>, body: Seq<StmtView> },
    LocalFunction { name: Seq<char>, parameters: Seq<Seq<char>>, body: Seq<StmtView> },
    Return(Option<Seq<ExprView>>),
    Break,
}

/// The views of a list of names.
pub open spec fn names_view(names: &Vec<String>) -> Seq<Seq<char>> {
    Seq::new(names.len() as nat, |i: int| names[i]@)
}

/// The views of a list of expressions.
pub open spec fn exprs_view(exprs: &Vec<Expr>) -> Seq<ExprView>
    decreases exprs,
{
    Seq::new(
        exprs.len() as nat,
        |i: int|
            if 0 <= i < exprs.len() {
                exprs[i].model()
            } else {
                ExprView::Nil
            },
    )
}

/// The views of the fields of a table constructor.
pub open spec fn fields_view(fields: &Vec<TableField>) -> Seq<TableFieldView>
    decreases fields,
{
    Seq::new(
        fields.len() as nat,
        |i: int|
            if 0 <= i < fields.len() {
                fields[i].model()
            } else {
                TableFieldView::Value(ExprView::Nil)
            },
    )
}

/// The views of a block of statements.
pub open spec fn stmts_view(stmts: &Vec<Stmt>) -> Seq<StmtView>
    decreases stmts,
{
    Seq::new(
        stmts.len() as nat,
        |i: int|
            if 0 <= i < stmts.len() {
                stmts[i].model()
            } else {
                StmtView::Break
            },
    )
}

/// The views of the `elseif` branches of a conditional.
pub open spec fn branches_view(branches: &Vec<(Expr, Vec<Stmt>)>) -> Seq<(ExprView, Seq<StmtView>)>
    decreases branches,
{
    Seq::new(
        branches.len() as nat,
        |i: int|
            if 0 <= i < branches.len() {
                (branches[i].0.model(), stmts_view(&branches[i].1))
            } else {
                (ExprView::Nil, Seq::empty())
            },
    )
}

/// The view of an expression that may be absent.
pub open spec fn optional_expr_view(expr: Option<Expr>) -> Option<ExprView> {
    match expr {
        Some(e) => Some(e@),
        None => None,
    }
}

/// The view of a statement that may be absent.
pub open spec fn optional_stmt_view(stmt: Option<Stmt>) -> Option<StmtView> {
    match stmt {
        Some(s) => Some(s@),
        None => None,
    }
}

impl Expr {
/// The mathematical value of the expression.
    pub open spec fn model(&self) -> ExprView
        decreases self,
    {
        match self {
            Expr::Number(text) => ExprView::Number(text@),
            Expr::String(text) => ExprView::String(text@),
            Expr::Boolean(b) => ExprView::Boolean(*b),
            Expr::Nil => ExprView::Nil,
            Expr::Identifier(name) => ExprView::Identifier(name@),
            Expr::UnaryOp { operator, operand } => ExprView::UnaryOp {
                operator: *operator,
                operand: Box::new(operand.model()),
            },
            Expr::BinaryOp { left, operator, right } => ExprView::BinaryOp {
                left: Box::new(left.model()),
                operator: *operator,
                right: Box::new(right.model()),
            },
            Expr::FunctionCall { name, arguments } => ExprView::FunctionCall {
                name: name@,
                arguments: exprs_view(arguments),
            },
            Expr::TableAccess { table, key } => ExprView::TableAccess {
                table: Box::new(table.model()),
                key: Box::new(key.model()),
            },
            Expr::TableConstructor { fields } => ExprView::TableConstructor {
                fields: fields_view(fields),
            },
        }
    }
}

impl TableField {
/// The mathematical value of the field.
    pub open spec fn model(&self) -> TableFieldView
        decreases self,
    {
        match self {
            TableField::Value(e) => TableFieldView::Value(e.model()),
            TableField::KeyValue(name, e) => TableFieldView::KeyValue(name@, e.model()),
        }
    }
}

impl Stmt {
/// The mathematical value of the statement.
    pub open spec fn model(&self) -> StmtView
        decreases self,
    {
        match self {
            Stmt::Expr(e) => StmtView::Expr(e.model()),
            Stmt::Assignment { variables, values } => StmtView::Assignment {
                variables: names_view(variables),
                values: exprs_view(values),
            },
            Stmt::LocalAssignment { variables, values } => StmtView::LocalAssignment {
                variables: names_view(variables),
                values: exprs_view(values),
            },
            Stmt::If { condition, then_block, else_if_blocks, else_block } => StmtView::If {
                condition: condition.model(),
                then_block: stmts_view(then_block),
                else_if_blocks: branches_view(else_if_blocks),
                else_block: match else_block {
                    Some(block) => Some(stmts_view(block)),
                    None => None,
                },
            },
            Stmt::While { condition, body } => StmtView::While {
                condition: condition.model(),
                body: stmts_view(body),
            },
            Stmt::Repeat { body, condition } => StmtView::Repeat {
                body: stmts_view(body),
                condition: condition.model(),
            },
            Stmt::For { variable, start, end, step, body } => StmtView::For {
                variable: variable@,
                start: start.model(),
                end: end.model(),
                step: match step {
                    Some(e) => Some(e.model()),
                    None => None,
                },
                body: stmts_view(body),
            },
            Stmt::Function { name, parameters, body } => StmtView::Function {
                name: name@,
                parameters: names_view(parameters),
                body: stmts_view(body),
            },
            Stmt::LocalFunction { name, parameters, body } => StmtView::LocalFunction {
                name: name@,
                parameters: names_view(parameters),
                body: stmts_view(body),
            },
            Stmt::Return(values) => StmtView::Return(
                match values {
                    Some(exprs) => Some(exprs_view(exprs)),
                    None => None,
                },
            ),
            Stmt::Break => StmtView::Break,
        }
    }
}

impl View for Expr {
    type V = ExprView;

    open spec fn view(&self) -> ExprView {
        self.model()
    }
}

impl View for TableField {
    type V = TableFieldView;

    open spec fn view(&self) -> TableFieldView {
        self.model()
    }
}

impl View for Stmt {
    type V = StmtView;

    open spec fn view(&self) -> StmtView {
        self.model()
    }
}

/// A copy of a list of names.
pub fn copy_names(names: &Vec<String>) -> (copy: Vec<String>)
    ensures
        names_view(&copy) == names_view(names),
{
    let mut copy: Vec<String> = Vec::new();
    let mut i: usize = 0;
    while i < names.len()
        invariant
            i <= names.len(),
            copy.len() == i,
            forall|j: int| 0 <= j < i ==> copy[j]@ == names[j]@,
        decreases names.len() - i,
    {
        copy.push(names[i].clone());
        i += 1;
    }
    assert(names_view(&copy) =~= names_view(names));
    copy
}

/// A copy of an expression.
pub fn copy_expr(expr: &Expr) -> (copy: Expr)
    ensures
        copy@ == expr@,
    decreases expr,
{
    match expr {
        Expr::Number(text) => Expr::Number(text.clone()),
        Expr::String(text) => Expr::String(text.clone()),
        Expr::Boolean(b) => Expr::Boolean(*b),
        Expr::Nil => Expr::Nil,
        Expr::Identifier(name) => Expr::Identifier(name.clone()),
        Expr::UnaryOp { operator, operand } => Expr::UnaryOp {
            operator: *operator,
            operand: Box::new(copy_expr(operand)),
        },
        Expr::BinaryOp { left, operator, right } => Expr::BinaryOp {
            left: Box::new(copy_expr(left)),
            operator: *operator,
            right: Box::new(copy_expr(right)),
        },
        Expr::FunctionCall { name, arguments } => Expr::FunctionCall {
            name: name.clone(),
            arguments: copy_exprs(arguments),
        },
        Expr::TableAccess { table, key } => Expr::TableAccess {
            table: Box::new(copy_expr(table)),
            key: Box::new(copy_expr(key)),
        },
        Expr::TableConstructor { fields } => Expr::TableConstructor { fields: copy_fields(fields) },
    }
}

/// A copy of a list of expressions.
pub fn copy_exprs(exprs: &Vec<Expr>) -> (copy: Vec<Expr>)
    ensures
        exprs_view(&copy) == exprs_view(exprs),
    decreases exprs,
{
    let mut copy: Vec<Expr> = Vec::new();
    let mut i: usize = 0;
    while i < exprs.len()
        invariant
            i <= exprs.len(),
            copy.len() == i,
            forall|j: int| 0 <= j < i ==> copy[j]@ == exprs[j]@,
        decreases exprs.len() - i,
    {
        copy.push(copy_expr(&exprs[i]));
        i += 1;
    }
    assert(exprs_view(&copy) =~= exprs_view(exprs));
    copy
}

/// A copy of the fields of a table constructor.
pub fn copy_fields(fields: &Vec<TableField>) -> (copy: Vec<TableField>)
    ensures
        fields_view(&copy) == fields_view(fields),
    decreases fields,
{
    let mut copy: Vec<TableField> = Vec::new();
    let mut i: usize = 0;
    while i < fields.len()
        invariant
            i <= fields.len(),
            copy.len() == i,
            forall|j: int| 0 <= j < i ==> copy[j]@ == fields[j]@,
        decreases fields.len() - i,
    {
        let field = match &fields[i] {
            TableField::Value(e) => TableField::Value(copy_expr(e)),
            TableField::KeyValue(name, e) => TableField::KeyValue(name.clone(), copy_expr(e)),
        };
        copy.push(field);
        i += 1;
    }
    assert(fields_view(&copy) =~= fields_view(fields));
    copy
}

/// A copy of a statement.
pub fn copy_stmt(stmt: &Stmt) -> (copy: Stmt)
    ensures
        copy@ == stmt@,
    decreases stmt,
{
    match stmt {
        Stmt::Expr(e) => Stmt::Expr(copy_expr(e)),
        Stmt::Assignment { variables, values } => Stmt::Assignment {
            variables: copy_names(variables),
            values: copy_exprs(values),
        },
        Stmt::LocalAssignment { variables, values } => Stmt::LocalAssignment {
            variables: copy_names(variables),
            values: copy_exprs(values),
        },
        Stmt::If { condition, then_block, else_if_blocks, else_block } => Stmt::If {
            condition: copy_expr(condition),
            then_block: copy_stmts(then_block),
            else_if_blocks: copy_branches(else_if_blocks),
            else_block: match else_block {
                Some(block) => Some(copy_stmts(block)),
                None => None,
            },
        },
        Stmt::While { condition, body } => Stmt::While {
            condition: copy_expr(condition),
            body: copy_stmts(body),
        },
        Stmt::Repeat { body, condition } => Stmt::Repeat {
            body: copy_stmts(body),
            condition: copy_expr(condition),
        },
        Stmt::For { variable, start, end, step, body } => Stmt::For {
            variable: variable.clone(),
            start: copy_expr(start),
            end: copy_expr(end),
            step: match step {
                Some(e) => Some(copy_expr(e)),
                None => None,
            },
            body: copy_stmts(body),
        },
        Stmt::Function { name, parameters, body } => Stmt::Function {
            name: name.clone(),
            parameters: copy_names(parameters),
            body: copy_stmts(body),
        },
        Stmt::LocalFunction { name, parameters, body } => Stmt::LocalFunction {
            name: name.clone(),
            parameters: copy_names(parameters),
            body: copy_stmts(body),
        },
        Stmt::Return(values) => Stmt::Return(
            match values {
                Some(exprs) => Some(copy_exprs(exprs)),
                None => None,
            },
        ),
        Stmt::Break => Stmt::Break,
    }
}

/// A copy of a block of statements.
pub fn copy_stmts(stmts: &Vec<Stmt>) -> (copy: Vec<Stmt>)
    ensures
        stmts_view(&copy) == stmts_view(stmts),
    decreases stmts,
{
    let mut copy: Vec<Stmt> = Vec::new();
    let mut i: usize = 0;
    while i < stmts.len()
        invariant
            i <= stmts.len(),
            copy.len() == i,
            forall|j: int| 0 <= j < i ==> copy[j]@ == stmts[j]@,
        decreases stmts.len() - i,
    {
        copy.push(copy_stmt(&stmts[i]));
        i += 1;
    }
    assert(stmts_view(&copy) =~= stmts_view(stmts));
    copy
}

/// A copy of the `elseif` branches of a conditional.
pub fn copy_branches(branches: &Vec<(Expr, Vec<Stmt>)>) -> (copy: Vec<(Expr, Vec<Stmt>)>)
    ensures
        branches_view(&copy) == branches_view(branches),
    decreases branches,
{
    let mut copy: Vec<(Expr, Vec<Stmt>)> = Vec::new();
    let mut i: usize = 0;
    while i < branches.len()
        invariant
            i <= branches.len(),
            copy.len() == i,
            forall|j: int|
                0 <= j < i ==> copy[j].0@ == branches[j].0@ && stmts_view(&copy[j].1) == stmts_view(
                    &branches[j].1,
                ),
        decreases branches.len() - i,
    {
        let branch = &branches[i];
        copy.push((copy_expr(&branch.0), copy_stmts(&branch.1)));
        i += 1;
    }
    assert(branches_view(&copy) =~= branches_view(branches));
    copy
}

impl Clone for Expr {
    fn clone(&self) -> (copy: Expr)
        ensures
            copy@ == self@,
    {
        copy_expr(self)
    }
}

impl Clone for TableField {
    fn clone(&self) -> (copy: TableField)
        ensures
            copy@ == self@,
    {
        match self {
            TableField::Value(e) => TableField::Value(copy_expr(e)),
            TableField::KeyValue(name, e) => TableField::KeyValue(name.clone(), copy_expr(e)),
        }
    }
}

impl Clone for Stmt {
    fn clone(&self) -> (copy: Stmt)
        ensures
            copy@ == self@,
    {
        copy_stmt(self)
    }
}

} // verus!
