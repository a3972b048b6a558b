//! The evaluator: a machine that executes statements step by step.
//!
//! The machine holds a control stack of tasks and a stack of values.
//! [`VmView::step`] defines what one step does; [`Vm::step`] does it. The
//! machine never computes with doubles and never prints: a step that needs
//! either ends in a request to the host ([`Request`]), and the next step
//! takes the answer ([`Reply`]).

use crate::ast::{
    branches_view, copy_expr, copy_stmt, copy_stmts, exprs_view, fields_view, names_view,
    stmts_view, BinaryOperator, Expr, ExprView, Stmt, StmtView, TableField, TableFieldView,
    UnaryOperator,
};
use crate::number::{integer_bits, Number};
use crate::text::same_text;
use crate::value::{
    coercion, concatenation, copy_value, length_of, name_of_type, negation, pairs_view, raw_equal,
    relational, rendering, scope_view, truthy, values_view, Builtin, Coercion, CoercionView,
    Function, FunctionView, Outcome, OutcomeView, Rendering, RenderingView, Value, ValueView,
};
use std::rc::Rc;
use vstd::prelude::*;
use vstd::string::StringExecFns;

verus! {

/// What the evaluator asks of its host.
#[derive(Debug)]
pub enum Request {
    /// Read this text as a double. The answer is `Reply::Number`, or
    /// `Reply::Nothing` if the text is no number.
    Parse(String),
    /// Write this double as text. The answer is `Reply::Text`.
    Format(Number),
    /// Compute `left operator right` on doubles, the operator being one of
    /// `Add`, `Subtract`, `Multiply`, `Divide`, `Modulo`, `Power`. The answer
    /// is `Reply::Number`.
    Arithmetic(BinaryOperator, Number, Number),
    /// Write this line to the standard output. Any answer will do.
    Print(String),
}

/// The mathematical value of a [`Request`].
pub enum RequestView {
    Parse(Seq<char>),
    Format(Number),
    Arithmetic(BinaryOperator, Number, Number),
    Print(Seq<char>),
}

impl View for Request {
    type V = RequestView;

    open spec fn view(&self) -> RequestView {
        match self {
            Request::Parse(text) => RequestView::Parse(text@),
            Request::Format(n) => RequestView::Format(*n),
            Request::Arithmetic(operator, left, right) => RequestView::Arithmetic(
                *operator,
                *left,
                *right,
            ),
            Request::Print(line) => RequestView::Print(line@),
        }
    }
}

/// What the host answers.
#[derive(Debug)]
pub enum Reply {
    Nothing,
    Number(Number),
    Text(String),
}

/// The mathematical value of a [`Reply`].
pub enum ReplyView {
    Nothing,
    Number(Number),
    Text(Seq<char>),
}

impl View for Reply {
    type V = ReplyView;

    open spec fn view(&self) -> ReplyView {
        match self {
            Reply::Nothing => ReplyView::Nothing,
            Reply::Number(n) => ReplyView::Number(*n),
            Reply::Text(text) => ReplyView::Text(text@),
        }
    }
}

/// How the evaluator stands after a step.
#[derive(Debug)]
pub enum Status {
    /// There is more to do: step again.
    Running,
    /// The host has to answer this request; the next step takes the answer.
    Waiting(Request),
    /// The statements have run: this is the value of the last one.
    Finished(Value),
}

/// The mathematical value of a [`Status`].
pub enum StatusView {
    Running,
    Waiting(RequestView),
    Finished(ValueView),
}

impl View for Status {
    type V = StatusView;

    open spec fn view(&self) -> StatusView {
        match self {
            Status::Running => StatusView::Running,
            Status::Waiting(request) => StatusView::Waiting(request@),
            Status::Finished(value) => StatusView::Finished(value@),
        }
    }
}

/// The kind of answer that a pending request expects.
#[derive(Debug, Clone, Copy, PartialEq, Eq, Structural)]
pub enum Expect {
    Number,
    Text,
    Nothing,
}

/// Where the value made from an answer goes: on top of the value stack, or
/// in place of the value that lies `depth` below the top.
#[derive(Debug, Clone, Copy, PartialEq, Eq, Structural)]
pub enum Slot {
    Push,
    Replace(usize),
}

/// The key under which the value on top of the stack enters a table that is
/// being built.
#[derive(Debug)]
pub enum PendingKey {
    /// No value is waiting.
    Idle,
    /// The next free position: the number of pairs plus one.
    Position,
    /// A name.
    Name(String),
}

/// The mathematical value of a [`PendingKey`].
pub enum PendingKeyView {
    Idle,
    Position,
    Name(Seq<char>),
}

impl View for PendingKey {
    type V = PendingKeyView;

    open spec fn view(&self) -> PendingKeyView {
        match self {
            PendingKey::Idle => PendingKeyView::Idle,
            PendingKey::Position => PendingKeyView::Position,
            PendingKey::Name(name) => PendingKeyView::Name(name@),
        }
    }
}

/// One piece of work on the evaluator's control stack. Evaluating an
/// expression leaves its value on the value stack; executing a statement or a
/// block leaves its value there too.
#[derive(Debug)]
pub enum Task {
    /// Evaluate an expression.
    Eval(Expr),
    /// Evaluate the expressions from `next` on, in order.
    EvalList { exprs: Vec<Expr>, next: usize },
    /// Execute a statement.
    Exec(Stmt),
    /// Execute the statements from `next` on, in order. The value of a block
    /// is that of its last statement, or nil if it has none.
    Block { stmts: Vec<Stmt>, next: usize },
    /// Drop the value on top of the stack.
    Discard,
    /// Put a value on the stack.
    Push(Value),
    /// Apply a unary operator to the value on top of the stack.
    Unary(UnaryOperator),
    /// Apply a binary operator to the two values on top of the stack.
    Binary(BinaryOperator),
    /// Take the host's answer: the value it stands for if it is of the
    /// expected kind, else `fallback`.
    Receive { expect: Expect, fallback: Value, slot: Slot },
    /// Call `callee` with the `count` values on top of the stack.
    Call { callee: Value, count: usize },
    /// Close the innermost call frame.
    PopFrame,
    /// Look the key on top of the stack up in the table below it.
    Index,
    /// Build a table from the fields from `next` on, after entering the value
    /// on top of the stack under `pending`.
    BuildTable { fields: Vec<TableField>, next: usize, pairs: Vec<(Value, Value)>, pending: PendingKey },
    /// Bind the variables to the `count` values on top of the stack, in the
    /// innermost call frame if `local`, else in the global table.
    Assign { variables: Vec<String>, count: usize, local: bool },
    /// Of the `count` values on top of the stack keep the first.
    KeepFirst { count: usize },
    /// Branch on the condition on top of the stack: that of `if` for index 0,
    /// that of the `index`-th `elseif` else.
    IfTest {
        then_block: Vec<Stmt>,
        else_if_blocks: Vec<(Expr, Vec<Stmt>)>,
        else_block: Option<Vec<Stmt>>,
        index: usize,
    },
    /// Run the body and loop if the condition on top of the stack holds.
    WhileTest { condition: Expr, body: Vec<Stmt> },
    /// Loop unless the condition on top of the stack holds.
    RepeatTest { body: Vec<Stmt>, condition: Expr },
    /// Replace the value on top of the stack by its numeric value, or by
    /// `default` if it has none.
    Coerce { default: Number },
    /// Start a numeric `for` loop with the start, the end and the step on top
    /// of the stack.
    ForInit { variable: String, body: Vec<Stmt> },
    /// Run one turn of a numeric `for` loop for the number on top of the
    /// stack, if the loop goes on.
    ForLoop { variable: String, body: Vec<Stmt>, end: Number, step: Number },
    /// After a turn of a numeric `for` loop: ask for the next number.
    ForStep { variable: String, body: Vec<Stmt>, current: Number, end: Number, step: Number },
    /// Write the line of `print`: `line` holds the texts of the arguments
    /// before `next`. If `pending`, the answer is the text of argument `next`.
    Print { args: Vec<Value>, next: usize, line: String, pending: bool },
}

/// The mathematical value of a [`Task`].
#[allow(inconsistent_fields)]
pub enum TaskView {
    Eval(ExprView),
    EvalList { exprs: Seq<ExprView>, next: nat },
    Exec(StmtView),
    Block { stmts: Seq<StmtView>, next: nat },
    Discard,
    Push(ValueView),
    Unary(UnaryOperator),
    Binary(BinaryOperator),
    Receive { expect: Expect, fallback: ValueView, slot: Slot },
    Call { callee: ValueView, count: nat },
    PopFrame,
    Index,
    BuildTable {
        fields: Seq<TableFieldView>,
        next: nat,
        pairs: Seq<(ValueView, ValueView)>,
        pending: PendingKeyView,
    },
    Assign { variables: Seq<Seq<char>>, count: nat, local: bool },
    KeepFirst { count: nat },
    IfTest {
        then_block: Seq<StmtView>,
        else_if_blocks: Seq<(ExprView, Seq<StmtView>)>,
        else_block: Option<Seq<StmtView>>,
        index: nat,
    },
    WhileTest { condition: ExprView, body: Seq<StmtView> },
    RepeatTest { body: Seq<StmtView>, condition: ExprView },
    Coerce { default: Number },
    ForInit { variable: Seq<char>, body: Seq<StmtView> },
    ForLoop { variable: Seq<char>, body: Seq<StmtView>, end: Number, step: Number },
    ForStep {
        variable: Seq<char>,
        body: Seq<StmtView>,
        current: Number,
        end: Number,
        step: Number,
    },
    Print { args: Seq<ValueView>, next: nat, line: Seq<char>, pending: bool },
}

impl View for Task {
    type V = TaskView;

    open spec fn view(&self) -> TaskView {
        match self {
            Task::Eval(e) => TaskView::Eval(e@),
            Task::EvalList { exprs, next } => TaskView::EvalList {
                exprs: exprs_view(exprs),
                next: *next as nat,
            },
            Task::Exec(s) => TaskView::Exec(s@),
            Task::Block { stmts, next } => TaskView::Block { stmts: stmts_view(stmts), next: *next as nat },
            Task::Discard => TaskView::Discard,
            Task::Push(v) => TaskView::Push(v@),
            Task::Unary(operator) => TaskView::Unary(*operator),
            Task::Binary(operator) => TaskView::Binary(*operator),
            Task::Receive { expect, fallback, slot } => TaskView::Receive {
                expect: *expect,
                fallback: fallback@,
                slot: *slot,
            },
            Task::Call { callee, count } => TaskView::Call { callee: callee@, count: *count as nat },
            Task::PopFrame => TaskView::PopFrame,
            Task::Index => TaskView::Index,
            Task::BuildTable { fields, next, pairs, pending } => TaskView::BuildTable {
                fields: fields_view(fields),
                next: *next as nat,
                pairs: pairs_view(pairs),
                pending: pending@,
            },
            Task::Assign { variables, count, local } => TaskView::Assign {
                variables: names_view(variables),
                count: *count as nat,
                local: *local,
            },
            Task::KeepFirst { count } => TaskView::KeepFirst { count: *count as nat },
            Task::IfTest { then_block, else_if_blocks, else_block, index } => TaskView::IfTest {
                then_block: stmts_view(then_block),
                else_if_blocks: branches_view(else_if_blocks),
                else_block: match else_block {
                    Some(block) => Some(stmts_view(block)),
                    None => None,
                },
                index: *index as nat,
            },
            Task::WhileTest { condition, body } => TaskView::WhileTest {
                condition: condition@,
                body: stmts_view(body),
            },
            Task::RepeatTest { body, condition } => TaskView::RepeatTest {
                body: stmts_view(body),
                condition: condition@,
            },
            Task::Coerce { default } => TaskView::Coerce { default: *default },
            Task::ForInit { variable, body } => TaskView::ForInit {
                variable: variable@,
                body: stmts_view(body),
            },
            Task::ForLoop { variable, body, end, step } => TaskView::ForLoop {
                variable: variable@,
                body: stmts_view(body),
                end: *end,
                step: *step,
            },
            Task::ForStep { variable, body, current, end, step } => TaskView::ForStep {
                variable: variable@,
                body: stmts_view(body),
                current: *current,
                end: *end,
                step: *step,
            },
            Task::Print { args, next, line, pending } => TaskView::Print {
                args: values_view(args),
                next: *next as nat,
                line: line@,
                pending: *pending,
            },
        }
    }
}

/// The views of the tasks of a control stack, the next one last.
pub open spec fn tasks_view(tasks: &Vec<Task>) -> Seq<TaskView> {
    Seq::new(tasks.len() as nat, |i: int| tasks[i]@)
}

/// The local bindings that one call of a user-defined function opens.
#[derive(Debug)]
pub struct CallFrame {
    locals: Vec<(String, Value)>,
}

impl View for CallFrame {
    type V = Seq<(Seq<char>, ValueView)>;

    closed spec fn view(&self) -> Seq<(Seq<char>, ValueView)> {
        scope_view(&self.locals)
    }
}

/// The views of the frames of a call stack, the innermost last.
pub open spec fn frames_view(frames: &Vec<CallFrame>) -> Seq<Seq<(Seq<char>, ValueView)>> {
    Seq::new(frames.len() as nat, |i: int| frames[i]@)
}

/// The index of the first binding of `name` in `scope` at or after `from`.
pub open spec fn binding_index(scope: Seq<(Seq<char>, ValueView)>, name: Seq<char>, from: int)
    -> Option<int>
    decreases scope.len() - from,
{
    if from < 0 || from >= scope.len() {
        None
    } else if scope[from].0 == name {
        Some(from)
    } else {
        binding_index(scope, name, from + 1)
    }
}

/// The value that `scope` binds `name` to.
pub open spec fn lookup(scope: Seq<(Seq<char>, ValueView)>, name: Seq<char>) -> Option<ValueView> {
    match binding_index(scope, name, 0) {
        Some(i) => Some(scope[i].1),
        None => None,
    }
}

/// `scope` with `name` bound to `value`: in place of its binding, if it has
/// one, else as a new binding.
pub open spec fn bind(scope: Seq<(Seq<char>, ValueView)>, name: Seq<char>, value: ValueView)
    -> Seq<(Seq<char>, ValueView)> {
    match binding_index(scope, name, 0) {
        Some(i) => scope.update(i, (name, value)),
        None => scope.push((name, value)),
    }
}

/// `scope` with each of the `names` from `from` on bound to the value at the
/// same place in `values`, or to nil where `values` is too short. Values
/// beyond the names are dropped.
pub open spec fn bind_all(
    scope: Seq<(Seq<char>, ValueView)>,
    names: Seq<Seq<char>>,
    values: Seq<ValueView>,
    from: int,
) -> Seq<(Seq<char>, ValueView)>
    decreases names.len() - from,
{
    if from < 0 || from >= names.len() {
        scope
    } else {
        let value = if from < values.len() {
            values[from]
        } else {
            ValueView::Nil
        };
        bind_all(bind(scope, names[from], value), names, values, from + 1)
    }
}

/// The value that the innermost frame with a binding of `name` binds it to.
pub open spec fn frame_lookup(frames: Seq<Seq<(Seq<char>, ValueView)>>, name: Seq<char>) -> Option<
    ValueView,
>
    decreases frames.len(),
{
    if frames.len() == 0 {
        None
    } else {
        match lookup(frames.last(), name) {
            Some(value) => Some(value),
            None => frame_lookup(frames.drop_last(), name),
        }
    }
}

/// The index of the first pair of a table at or after `from` whose key is
/// equal to `key`.
pub open spec fn key_index(pairs: Seq<(ValueView, ValueView)>, key: ValueView, from: int) -> Option<
    int,
>
    decreases pairs.len() - from,
{
    if from < 0 || from >= pairs.len() {
        None
    } else if raw_equal(pairs[from].0, key) {
        Some(from)
    } else {
        key_index(pairs, key, from + 1)
    }
}

/// The value that a table holds under `key`, or nil.
pub open spec fn table_get(pairs: Seq<(ValueView, ValueView)>, key: ValueView) -> ValueView {
    match key_index(pairs, key, 0) {
        Some(i) => pairs[i].1,
        None => ValueView::Nil,
    }
}

/// A table with `value` under `key`: in place of the pair with an equal key,
/// if there is one, else as a new pair.
pub open spec fn table_set(pairs: Seq<(ValueView, ValueView)>, key: ValueView, value: ValueView)
    -> Seq<(ValueView, ValueView)> {
    match key_index(pairs, key, 0) {
        Some(i) => pairs.update(i, (key, value)),
        None => pairs.push((key, value)),
    }
}

/// The position that the next positional field of a table constructor gets:
/// the number of pairs plus one.
pub open spec fn next_position(pairs: nat) -> nat {
    if pairs < usize::MAX {
        pairs + 1
    } else {
        pairs
    }
}

/// Whether a numeric `for` loop runs a turn for `current`: with a positive
/// step while `current <= end`, with a negative step while `current >= end`.
pub open spec fn for_continues(current: Number, end: Number, step: Number) -> bool {
    (Number::spec_zero().lt(step) && current.le(end)) || (step.lt(Number::spec_zero()) && end.le(
        current,
    ))
}

/// The number that a value is, or `default` if it is no number.
pub open spec fn number_or(value: ValueView, default: Number) -> Number {
    match value {
        ValueView::Number(n) => n,
        _ => default,
    }
}

/// The value that an answer of the host stands for: a number or a text if
/// that is what was expected, else `fallback`.
pub open spec fn accept(expect: Expect, fallback: ValueView, reply: ReplyView) -> ValueView {
    match (expect, reply) {
        (Expect::Number, ReplyView::Number(n)) => ValueView::Number(n),
        (Expect::Text, ReplyView::Text(text)) => ValueView::String(text),
        _ => fallback,
    }
}

/// What a binary operator comes to on two values.
pub open spec fn binary_outcome(operator: BinaryOperator, left: ValueView, right: ValueView)
    -> OutcomeView {
    match operator {
        BinaryOperator::Add | BinaryOperator::Subtract | BinaryOperator::Multiply
        | BinaryOperator::Divide | BinaryOperator::Modulo | BinaryOperator::Power => {
            crate::value::arithmetic(operator, left, right)
        },
        BinaryOperator::LessThan | BinaryOperator::LessEqual | BinaryOperator::GreaterThan
        | BinaryOperator::GreaterEqual => relational(operator, left, right),
        BinaryOperator::Concat => concatenation(left, right),
        BinaryOperator::Equal => OutcomeView::Done(ValueView::Boolean(raw_equal(left, right))),
        BinaryOperator::NotEqual => OutcomeView::Done(ValueView::Boolean(!raw_equal(left, right))),
        BinaryOperator::And => OutcomeView::Done(
            ValueView::Boolean(truthy(left) && truthy(right)),
        ),
        BinaryOperator::Or => OutcomeView::Done(ValueView::Boolean(truthy(left) || truthy(right))),
    }
}

/// What a unary operator comes to on a value.
pub open spec fn unary_outcome(operator: UnaryOperator, value: ValueView) -> OutcomeView {
    match operator {
        UnaryOperator::Not => OutcomeView::Done(ValueView::Boolean(!truthy(value))),
        UnaryOperator::Minus => negation(value),
        UnaryOperator::Length => OutcomeView::Done(length_of(value)),
    }
}

/// The tab that stands before every argument of `print` but the first.
pub open spec fn separator(index: nat) -> Seq<char> {
    if index > 0 {
        seq!['\t']
    } else {
        Seq::empty()
    }
}

/// The state of an evaluator: the global table, the value stack (top last),
/// the call frames (innermost last) and the control stack (next task last).
pub struct VmView {
    pub globals: Seq<(Seq<char>, ValueView)>,
    pub stack: Seq<ValueView>,
    pub frames: Seq<Seq<(Seq<char>, ValueView)>>,
    pub tasks: Seq<TaskView>,
}

impl VmView {
    /// With `task` as the next task.
    pub open spec fn with_task(self, task: TaskView) -> VmView {
        VmView { tasks: self.tasks.push(task), ..self }
    }

    /// With `value` on top of the value stack.
    pub open spec fn with_value(self, value: ValueView) -> VmView {
        VmView { stack: self.stack.push(value), ..self }
    }

    /// The value on top of the stack, or nil if the stack is empty.
    pub open spec fn top(self) -> ValueView {
        if self.stack.len() > 0 {
            self.stack.last()
        } else {
            ValueView::Nil
        }
    }

    /// Without the value on top of the stack.
    pub open spec fn dropped(self) -> VmView {
        if self.stack.len() > 0 {
            VmView { stack: self.stack.drop_last(), ..self }
        } else {
            self
        }
    }

    /// How many of `count` values the stack holds.
    pub open spec fn available(self, count: nat) -> int {
        if count <= self.stack.len() {
            count as int
        } else {
            self.stack.len() as int
        }
    }

    /// The `count` values on top of the stack, the top one last.
    pub open spec fn top_values(self, count: nat) -> Seq<ValueView> {
        self.stack.subrange(self.stack.len() - self.available(count), self.stack.len() as int)
    }

    /// Without the `count` values on top of the stack.
    pub open spec fn dropped_values(self, count: nat) -> VmView {
        VmView { stack: self.stack.subrange(0, self.stack.len() - self.available(count)), ..self }
    }

    /// With `value` in place of the value `depth` below the top of the stack,
    /// if the stack is that deep.
    pub open spec fn with_replaced(self, depth: usize, value: ValueView) -> VmView {
        if depth < self.stack.len() {
            VmView { stack: self.stack.update(self.stack.len() - 1 - depth, value), ..self }
        } else {
            self
        }
    }

    /// With `name` bound to `value` in the global table.
    pub open spec fn with_global(self, name: Seq<char>, value: ValueView) -> VmView {
        VmView { globals: bind(self.globals, name, value), ..self }
    }

    /// With the innermost frame replaced by `locals`, if a frame is open.
    pub open spec fn with_locals(self, locals: Seq<(Seq<char>, ValueView)>) -> VmView {
        if self.frames.len() > 0 {
            VmView { frames: self.frames.update(self.frames.len() - 1, locals), ..self }
        } else {
            self
        }
    }

    /// The bindings of the innermost frame, or none if no frame is open.
    pub open spec fn locals(self) -> Seq<(Seq<char>, ValueView)> {
        if self.frames.len() > 0 {
            self.frames.last()
        } else {
            Seq::empty()
        }
    }

    /// The value of a variable: that of the innermost frame that binds the
    /// name, else that of the global table, else nil.
    pub open spec fn variable(self, name: Seq<char>) -> ValueView {
        match frame_lookup(self.frames, name) {
            Some(value) => value,
            None => match lookup(self.globals, name) {
                Some(value) => value,
                None => ValueView::Nil,
            },
        }
    }

    /// Whether the next step has to bind a local variable and no call frame
    /// is open to hold it. An evaluator in this state cannot step.
    pub open spec fn frame_missing(self) -> bool {
        self.tasks.len() > 0 && self.frames.len() == 0 && match self.tasks.last() {
            TaskView::Assign { local, .. } => local,
            TaskView::Exec(StmtView::LocalFunction { .. }) => true,
            TaskView::ForLoop { end, step, .. } => self.top() is Number && for_continues(
                self.top()->Number_0,
                end,
                step,
            ),
            _ => false,
        }
    }

    /// The step that evaluates an expression.
    pub open spec fn eval(self, expr: ExprView) -> (VmView, StatusView) {
        match expr {
            ExprView::Number(text) => (
                self.with_task(
                    TaskView::Receive {
                        expect: Expect::Number,
                        fallback: ValueView::Nil,
                        slot: Slot::Push,
                    },
                ),
                StatusView::Waiting(RequestView::Parse(text)),
            ),
            ExprView::String(text) => (
                self.with_value(ValueView::String(text)),
                StatusView::Running,
            ),
            ExprView::Boolean(b) => (self.with_value(ValueView::Boolean(b)), StatusView::Running),
            ExprView::Nil => (self.with_value(ValueView::Nil), StatusView::Running),
            ExprView::Identifier(name) => (
                self.with_value(self.variable(name)),
                StatusView::Running,
            ),
            ExprView::UnaryOp { operator, operand } => (
                self.with_task(TaskView::Unary(operator)).with_task(TaskView::Eval(*operand)),
                StatusView::Running,
            ),
            ExprView::BinaryOp { left, operator, right } => (
                self.with_task(TaskView::Binary(operator)).with_task(
                    TaskView::Eval(*right),
                ).with_task(TaskView::Eval(*left)),
                StatusView::Running,
            ),
            ExprView::FunctionCall { name, arguments } => (
                self.with_task(
                    TaskView::Call {
                        callee: self.variable(name),
                        count: arguments.len(),
                    },
                ).with_task(TaskView::EvalList { exprs: arguments, next: 0 }),
                StatusView::Running,
            ),
            ExprView::TableAccess { table, key } => (
                self.with_task(TaskView::Index).with_task(TaskView::Eval(*key)).with_task(
                    TaskView::Eval(*table),
                ),
                StatusView::Running,
            ),
            ExprView::TableConstructor { fields } => (
                self.with_task(
                    TaskView::BuildTable {
                        fields,
                        next: 0,
                        pairs: Seq::empty(),
                        pending: PendingKeyView::Idle,
                    },
                ),
                StatusView::Running,
            ),
        }
    }

    /// The step that executes a statement.
    pub open spec fn exec(self, stmt: StmtView) -> (VmView, StatusView) {
        match stmt {
            StmtView::Expr(e) => (self.with_task(TaskView::Eval(e)), StatusView::Running),
            StmtView::Assignment { variables, values } => (
                self.with_task(
                    TaskView::Assign { variables, count: values.len(), local: false },
                ).with_task(TaskView::EvalList { exprs: values, next: 0 }),
                StatusView::Running,
            ),
            StmtView::LocalAssignment { variables, values } => (
                self.with_task(
                    TaskView::Assign { variables, count: values.len(), local: true },
                ).with_task(TaskView::EvalList { exprs: values, next: 0 }),
                StatusView::Running,
            ),
            StmtView::If { condition, then_block, else_if_blocks, else_block } => (
                self.with_task(
                    TaskView::IfTest { then_block, else_if_blocks, else_block, index: 0 },
                ).with_task(TaskView::Eval(condition)),
                StatusView::Running,
            ),
            StmtView::While { condition, body } => (
                self.with_task(TaskView::WhileTest { condition, body }).with_task(
                    TaskView::Eval(condition),
                ),
                StatusView::Running,
            ),
            StmtView::Repeat { body, condition } => (
                self.with_task(TaskView::RepeatTest { body, condition }).with_task(
                    TaskView::Eval(condition),
                ).with_task(TaskView::Discard).with_task(TaskView::Block { stmts: body, next: 0 }),
                StatusView::Running,
            ),
            StmtView::For { variable, start, end, step, body } => {
                let bounds = self.with_task(TaskView::ForInit { variable, body });
                let stepped = match step {
                    Some(e) => bounds.with_task(
                        TaskView::Coerce { default: Number::spec_one() },
                    ).with_task(TaskView::Eval(e)),
                    None => bounds.with_task(
                        TaskView::Push(ValueView::Number(Number::spec_one())),
                    ),
                };
                (
                    stepped.with_task(TaskView::Coerce { default: Number::spec_zero() }).with_task(
                        TaskView::Eval(end),
                    ).with_task(TaskView::Coerce { default: Number::spec_zero() }).with_task(
                        TaskView::Eval(start),
                    ),
                    StatusView::Running,
                )
            },
            StmtView::Function { name, parameters, body } => (
                self.with_global(
                    name,
                    ValueView::Function(
                        FunctionView::UserDefined { parameters, body, closure: Seq::empty() },
                    ),
                ).with_value(ValueView::Nil),
                StatusView::Running,
            ),
            StmtView::LocalFunction { name, parameters, body } => (
                self.with_locals(
                    bind(
                        self.locals(),
                        name,
                        ValueView::Function(
                            FunctionView::UserDefined { parameters, body, closure: Seq::empty() },
                        ),
                    ),
                ).with_value(ValueView::Nil),
                StatusView::Running,
            ),
            StmtView::Return(None) => (self.with_value(ValueView::Nil), StatusView::Running),
            StmtView::Return(Some(values)) => (
                self.with_task(TaskView::KeepFirst { count: values.len() }).with_task(
                    TaskView::EvalList { exprs: values, next: 0 },
                ),
                StatusView::Running,
            ),
            StmtView::Break => (self.with_value(ValueView::Nil), StatusView::Running),
        }
    }

    /// The step that goes on with a list of expressions.
    pub open spec fn eval_list(self, exprs: Seq<ExprView>, next: nat) -> (VmView, StatusView) {
        if next < exprs.len() {
            (
                self.with_task(TaskView::EvalList { exprs, next: next + 1 }).with_task(
                    TaskView::Eval(exprs[next as int]),
                ),
                StatusView::Running,
            )
        } else {
            (self, StatusView::Running)
        }
    }

    /// The step that goes on with a block: it drops the value of the
    /// statement before and executes the next one.
    pub open spec fn block(self, stmts: Seq<StmtView>, next: nat) -> (VmView, StatusView) {
        if next < stmts.len() {
            let cleared = if next > 0 {
                self.dropped()
            } else {
                self
            };
            (
                cleared.with_task(TaskView::Block { stmts, next: next + 1 }).with_task(
                    TaskView::Exec(stmts[next as int]),
                ),
                StatusView::Running,
            )
        } else if stmts.len() == 0 {
            (self.with_value(ValueView::Nil), StatusView::Running)
        } else {
            (self, StatusView::Running)
        }
    }

    /// What becomes of an operation whose operands were taken off the stack:
    /// its result goes on the stack, or the operands go back and the
    /// operation waits, as `retry`, for the host.
    pub open spec fn settle(
        self,
        outcome: OutcomeView,
        operands: Seq<ValueView>,
        retry: TaskView,
    ) -> (VmView, StatusView) {
        match outcome {
            OutcomeView::Done(value) => (self.with_value(value), StatusView::Running),
            OutcomeView::Parse { operand, text } => (
                VmView { stack: self.stack + operands, ..self }.with_task(retry).with_task(
                    TaskView::Receive {
                        expect: Expect::Number,
                        fallback: ValueView::Nil,
                        slot: Slot::Replace(
                            if operand == 0 && operands.len() > 1 {
                                1
                            } else {
                                0
                            },
                        ),
                    },
                ),
                StatusView::Waiting(RequestView::Parse(text)),
            ),
            OutcomeView::Format { operand, number } => (
                VmView { stack: self.stack + operands, ..self }.with_task(retry).with_task(
                    TaskView::Receive {
                        expect: Expect::Text,
                        fallback: ValueView::String(Seq::empty()),
                        slot: Slot::Replace(
                            if operand == 0 && operands.len() > 1 {
                                1
                            } else {
                                0
                            },
                        ),
                    },
                ),
                StatusView::Waiting(RequestView::Format(number)),
            ),
            OutcomeView::Arithmetic { operator, left, right } => (
                self.with_task(
                    TaskView::Receive {
                        expect: Expect::Number,
                        fallback: ValueView::Nil,
                        slot: Slot::Push,
                    },
                ),
                StatusView::Waiting(RequestView::Arithmetic(operator, left, right)),
            ),
        }
    }

    /// The step that applies a unary operator.
    pub open spec fn unary(self, operator: UnaryOperator) -> (VmView, StatusView) {
        self.dropped().settle(
            unary_outcome(operator, self.top()),
            seq![self.top()],
            TaskView::Unary(operator),
        )
    }

    /// The step that applies a binary operator: the right operand lies on top
    /// of the stack, the left one below it.
    pub open spec fn binary(self, operator: BinaryOperator) -> (VmView, StatusView) {
        let right = self.top();
        let left = self.dropped().top();
        self.dropped().dropped().settle(
            binary_outcome(operator, left, right),
            seq![left, right],
            TaskView::Binary(operator),
        )
    }

    /// The step that takes an answer of the host.
    pub open spec fn receive(self, expect: Expect, fallback: ValueView, slot: Slot, reply: ReplyView)
        -> (VmView, StatusView) {
        let value = accept(expect, fallback, reply);
        match slot {
            Slot::Push => (self.with_value(value), StatusView::Running),
            Slot::Replace(depth) => (self.with_replaced(depth, value), StatusView::Running),
        }
    }

    /// The step that calls a builtin.
    pub open spec fn call_builtin(self, builtin: Builtin, args: Seq<ValueView>) -> (
        VmView,
        StatusView,
    ) {
        match builtin {
            Builtin::Print => (
                self.with_task(
                    TaskView::Print { args, next: 0, line: Seq::empty(), pending: false },
                ),
                StatusView::Running,
            ),
            Builtin::Type => if args.len() == 1 {
                (self.with_value(ValueView::String(name_of_type(args[0]))), StatusView::Running)
            } else {
                (self.with_value(ValueView::Nil), StatusView::Running)
            },
            Builtin::ToNumber => if args.len() == 0 {
                (self.with_value(ValueView::Nil), StatusView::Running)
            } else {
                match coercion(args[0]) {
                    CoercionView::Number(n) => (
                        self.with_value(ValueView::Number(n)),
                        StatusView::Running,
                    ),
                    CoercionView::Text(text) => (
                        self.with_task(
                            TaskView::Receive {
                                expect: Expect::Number,
                                fallback: ValueView::Nil,
                                slot: Slot::Push,
                            },
                        ),
                        StatusView::Waiting(RequestView::Parse(text)),
                    ),
                    CoercionView::Absent => (self.with_value(ValueView::Nil), StatusView::Running),
                }
            },
            Builtin::ToString => if args.len() == 0 {
                (self.with_value(ValueView::String(Seq::empty())), StatusView::Running)
            } else {
                match rendering(args[0]) {
                    RenderingView::Text(text) => (
                        self.with_value(ValueView::String(text)),
                        StatusView::Running,
                    ),
                    RenderingView::Number(n) => (
                        self.with_task(
                            TaskView::Receive {
                                expect: Expect::Text,
                                fallback: ValueView::String(Seq::empty()),
                                slot: Slot::Push,
                            },
                        ),
                        StatusView::Waiting(RequestView::Format(n)),
                    ),
                }
            },
        }
    }

    /// The step that calls a function with the `count` values on top of the
    /// stack. A builtin runs; a user-defined function gets a new call frame
    /// that binds its parameters to the arguments, missing ones to nil, and
    /// its body runs in it, the frame being closed behind it; a value that is
    /// no function gives nil.
    pub open spec fn call(self, callee: ValueView, count: nat) -> (VmView, StatusView) {
        let args = self.top_values(count);
        let rest = self.dropped_values(count);
        match callee {
            ValueView::Function(FunctionView::Native(builtin)) => rest.call_builtin(builtin, args),
            ValueView::Function(FunctionView::UserDefined { parameters, body, closure }) => (
                VmView {
                    frames: rest.frames.push(bind_all(Seq::empty(), parameters, args, 0)),
                    ..rest
                }.with_task(TaskView::PopFrame).with_task(TaskView::Block { stmts: body, next: 0 }),
                StatusView::Running,
            ),
            _ => (rest.with_value(ValueView::Nil), StatusView::Running),
        }
    }

    /// The step that writes the line of `print`.
    pub open spec fn print(
        self,
        args: Seq<ValueView>,
        next: nat,
        line: Seq<char>,
        pending: bool,
        reply: ReplyView,
    ) -> (VmView, StatusView) {
        if next >= args.len() {
            (
                self.with_task(
                    TaskView::Receive {
                        expect: Expect::Nothing,
                        fallback: ValueView::Nil,
                        slot: Slot::Push,
                    },
                ),
                StatusView::Waiting(RequestView::Print(line)),
            )
        } else if pending {
            let text = match reply {
                ReplyView::Text(text) => text,
                _ => Seq::empty(),
            };
            (
                self.with_task(
                    TaskView::Print {
                        args,
                        next: next + 1,
                        line: line + separator(next) + text,
                        pending: false,
                    },
                ),
                StatusView::Running,
            )
        } else {
            match rendering(args[next as int]) {
                RenderingView::Text(text) => (
                    self.with_task(
                        TaskView::Print {
                            args,
                            next: next + 1,
                            line: line + separator(next) + text,
                            pending: false,
                        },
                    ),
                    StatusView::Running,
                ),
                RenderingView::Number(n) => (
                    self.with_task(TaskView::Print { args, next, line, pending: true }),
                    StatusView::Waiting(RequestView::Format(n)),
                ),
            }
        }
    }

    /// The step that looks a key up in a table. Anything but a table holds
    /// nil under every key.
    pub open spec fn index(self) -> (VmView, StatusView) {
        let key = self.top();
        let table = self.dropped().top();
        let rest = self.dropped().dropped();
        match table {
            ValueView::Table(pairs) => (rest.with_value(table_get(pairs, key)), StatusView::Running),
            _ => (rest.with_value(ValueView::Nil), StatusView::Running),
        }
    }

    /// The step that goes on building a table.
    pub open spec fn build_table(
        self,
        fields: Seq<TableFieldView>,
        next: nat,
        pairs: Seq<(ValueView, ValueView)>,
        pending: PendingKeyView,
    ) -> (VmView, StatusView) {
        let (rest, entered) = match pending {
            PendingKeyView::Idle => (self, pairs),
            PendingKeyView::Position => (
                self.dropped(),
                table_set(
                    pairs,
                    ValueView::Number(
                        Number { bits: integer_bits(next_position(pairs.len())) as u64 },
                    ),
                    self.top(),
                ),
            ),
            PendingKeyView::Name(name) => (
                self.dropped(),
                table_set(pairs, ValueView::String(name), self.top()),
            ),
        };
        if next < fields.len() {
            let (key, expr) = match fields[next as int] {
                TableFieldView::Value(e) => (PendingKeyView::Position, e),
                TableFieldView::KeyValue(name, e) => (PendingKeyView::Name(name), e),
            };
            (
                rest.with_task(
                    TaskView::BuildTable {
                        fields,
                        next: next + 1,
                        pairs: entered,
                        pending: key,
                    },
                ).with_task(TaskView::Eval(expr)),
                StatusView::Running,
            )
        } else {
            (rest.with_value(ValueView::Table(entered)), StatusView::Running)
        }
    }

    /// The step that assigns: to the global table whatever frames are open,
    /// or to the innermost frame.
    pub open spec fn assign(self, variables: Seq<Seq<char>>, count: nat, local: bool) -> (
        VmView,
        StatusView,
    ) {
        let values = self.top_values(count);
        let rest = self.dropped_values(count);
        if local {
            (
                rest.with_locals(bind_all(rest.locals(), variables, values, 0)).with_value(
                    ValueView::Nil,
                ),
                StatusView::Running,
            )
        } else {
            (
                VmView {
                    globals: bind_all(rest.globals, variables, values, 0),
                    ..rest
                }.with_value(ValueView::Nil),
                StatusView::Running,
            )
        }
    }

    /// The step that keeps the first of `count` values: the value of a
    /// `return`.
    pub open spec fn keep_first(self, count: nat) -> (VmView, StatusView) {
        let values = self.top_values(count);
        let rest = self.dropped_values(count);
        (
            rest.with_value(
                if values.len() > 0 {
                    values[0]
                } else {
                    ValueView::Nil
                },
            ),
            StatusView::Running,
        )
    }

    /// The step that branches in a conditional.
    pub open spec fn if_test(
        self,
        then_block: Seq<StmtView>,
        else_if_blocks: Seq<(ExprView, Seq<StmtView>)>,
        else_block: Option<Seq<StmtView>>,
        index: nat,
    ) -> (VmView, StatusView) {
        let rest = self.dropped();
        if truthy(self.top()) {
            let block = if index == 0 {
                then_block
            } else if index - 1 < else_if_blocks.len() {
                else_if_blocks[index - 1].1
            } else {
                Seq::empty()
            };
            (rest.with_task(TaskView::Block { stmts: block, next: 0 }), StatusView::Running)
        } else if index < else_if_blocks.len() {
            (
                rest.with_task(
                    TaskView::IfTest {
                        then_block,
                        else_if_blocks,
                        else_block,
                        index: index + 1,
                    },
                ).with_task(TaskView::Eval(else_if_blocks[index as int].0)),
                StatusView::Running,
            )
        } else {
            match else_block {
                Some(block) => (
                    rest.with_task(TaskView::Block { stmts: block, next: 0 }),
                    StatusView::Running,
                ),
                None => (rest.with_value(ValueView::Nil), StatusView::Running),
            }
        }
    }

    /// The step that tests the condition of a `while` loop.
    pub open spec fn while_test(self, condition: ExprView, body: Seq<StmtView>) -> (
        VmView,
        StatusView,
    ) {
        let rest = self.dropped();
        if truthy(self.top()) {
            (
                rest.with_task(TaskView::Exec(StmtView::While { condition, body })).with_task(
                    TaskView::Discard,
                ).with_task(TaskView::Block { stmts: body, next: 0 }),
                StatusView::Running,
            )
        } else {
            (rest.with_value(ValueView::Nil), StatusView::Running)
        }
    }

    /// The step that tests the condition of a `repeat` loop.
    pub open spec fn repeat_test(self, body: Seq<StmtView>, condition: ExprView) -> (
        VmView,
        StatusView,
    ) {
        let rest = self.dropped();
        if truthy(self.top()) {
            (rest.with_value(ValueView::Nil), StatusView::Running)
        } else {
            (
                rest.with_task(TaskView::Exec(StmtView::Repeat { body, condition })),
                StatusView::Running,
            )
        }
    }

    /// The step that coerces a bound of a numeric `for` loop.
    pub open spec fn coerce(self, default: Number) -> (VmView, StatusView) {
        let rest = self.dropped();
        match coercion(self.top()) {
            CoercionView::Number(n) => (rest.with_value(ValueView::Number(n)), StatusView::Running),
            CoercionView::Text(text) => (
                rest.with_task(
                    TaskView::Receive {
                        expect: Expect::Number,
                        fallback: ValueView::Number(default),
                        slot: Slot::Push,
                    },
                ),
                StatusView::Waiting(RequestView::Parse(text)),
            ),
            CoercionView::Absent => (
                rest.with_value(ValueView::Number(default)),
                StatusView::Running,
            ),
        }
    }

    /// The step that starts a numeric `for` loop.
    pub open spec fn for_init(self, variable: Seq<char>, body: Seq<StmtView>) -> (
        VmView,
        StatusView,
    ) {
        let step = number_or(self.top(), Number::spec_one());
        let end = number_or(self.dropped().top(), Number::spec_zero());
        let start = number_or(self.dropped().dropped().top(), Number::spec_zero());
        (
            self.dropped().dropped().dropped().with_value(ValueView::Number(start)).with_task(
                TaskView::ForLoop { variable, body, end, step },
            ),
            StatusView::Running,
        )
    }

    /// The step that runs one turn of a numeric `for` loop, or ends the loop.
    pub open spec fn for_loop(
        self,
        variable: Seq<char>,
        body: Seq<StmtView>,
        end: Number,
        step: Number,
    ) -> (VmView, StatusView) {
        let rest = self.dropped();
        match self.top() {
            ValueView::Number(current) => if for_continues(current, end, step) {
                (
                    rest.with_locals(
                        bind(rest.locals(), variable, ValueView::Number(current)),
                    ).with_task(TaskView::ForStep { variable, body, current, end, step }).with_task(
                        TaskView::Block { stmts: body, next: 0 },
                    ),
                    StatusView::Running,
                )
            } else {
                (rest.with_value(ValueView::Nil), StatusView::Running)
            },
            _ => (rest.with_value(ValueView::Nil), StatusView::Running),
        }
    }

    /// The step behind a turn of a numeric `for` loop.
    pub open spec fn for_step(
        self,
        variable: Seq<char>,
        body: Seq<StmtView>,
        current: Number,
        end: Number,
        step: Number,
    ) -> (VmView, StatusView) {
        (
            self.dropped().with_task(TaskView::ForLoop { variable, body, end, step }).with_task(
                TaskView::Receive {
                    expect: Expect::Number,
                    fallback: ValueView::Nil,
                    slot: Slot::Push,
                },
            ),
            StatusView::Waiting(RequestView::Arithmetic(BinaryOperator::Add, current, step)),
        )
    }

    /// One step of the evaluator: the next task is taken off the control
    /// stack and done. With no task left the value on top of the stack is the
    /// result.
    pub open spec fn step(self, reply: ReplyView) -> (VmView, StatusView) {
        if self.tasks.len() == 0 {
            (self.dropped(), StatusView::Finished(self.top()))
        } else {
            let rest = VmView { tasks: self.tasks.drop_last(), ..self };
            match self.tasks.last() {
                TaskView::Eval(e) => rest.eval(e),
                TaskView::EvalList { exprs, next } => rest.eval_list(exprs, next),
                TaskView::Exec(s) => rest.exec(s),
                TaskView::Block { stmts, next } => rest.block(stmts, next),
                TaskView::Discard => (rest.dropped(), StatusView::Running),
                TaskView::Push(v) => (rest.with_value(v), StatusView::Running),
                TaskView::Unary(operator) => rest.unary(operator),
                TaskView::Binary(operator) => rest.binary(operator),
                TaskView::Receive { expect, fallback, slot } => rest.receive(
                    expect,
                    fallback,
                    slot,
                    reply,
                ),
                TaskView::Call { callee, count } => rest.call(callee, count),
                TaskView::PopFrame => (
                    if rest.frames.len() > 0 {
                        VmView { frames: rest.frames.drop_last(), ..rest }
                    } else {
                        rest
                    },
                    StatusView::Running,
                ),
                TaskView::Index => rest.index(),
                TaskView::BuildTable { fields, next, pairs, pending } => rest.build_table(
                    fields,
                    next,
                    pairs,
                    pending,
                ),
                TaskView::Assign { variables, count, local } => rest.assign(
                    variables,
                    count,
                    local,
                ),
                TaskView::KeepFirst { count } => rest.keep_first(count),
                TaskView::IfTest { then_block, else_if_blocks, else_block, index } => rest.if_test(
                    then_block,
                    else_if_blocks,
                    else_block,
                    index,
                ),
                TaskView::WhileTest { condition, body } => rest.while_test(condition, body),
                TaskView::RepeatTest { body, condition } => rest.repeat_test(body, condition),
                TaskView::Coerce { default } => rest.coerce(default),
                TaskView::ForInit { variable, body } => rest.for_init(variable, body),
                TaskView::ForLoop { variable, body, end, step } => rest.for_loop(
                    variable,
                    body,
                    end,
                    step,
                ),
                TaskView::ForStep { variable, body, current, end, step } => rest.for_step(
                    variable,
                    body,
                    current,
                    end,
                    step,
                ),
                TaskView::Print { args, next, line, pending } => rest.print(
                    args,
                    next,
                    line,
                    pending,
                    reply,
                ),
            }
        }
    }
}

/// The index of the first binding of `name` in `scope`.
fn find_binding(scope: &Vec<(String, Value)>, name: &String) -> (found: Option<usize>)
    ensures
        found matches Some(i) ==> i < scope.len(),
        match found {
            Some(i) => Some(i as int),
            None => None,
        } == binding_index(scope_view(scope), name@, 0),
{
    let mut i: usize = 0;
    while i < scope.len()
        invariant
            i <= scope.len(),
            binding_index(scope_view(scope), name@, 0) == binding_index(
                scope_view(scope),
                name@,
                i as int,
            ),
        decreases scope.len() - i,
    {
        if same_text(&scope[i].0, name) {
            return Some(i);
        }
        i += 1;
    }
    None
}

/// A copy of the value that `scope` binds `name` to.
fn lookup_in(scope: &Vec<(String, Value)>, name: &String) -> (found: Option<Value>)
    ensures
        match found {
            Some(value) => Some(value@),
            None => None,
        } == lookup(scope_view(scope), name@),
{
    match find_binding(scope, name) {
        Some(i) => Some(copy_value(&scope[i].1)),
        None => None,
    }
}

/// Binds `name` to `value` in `scope`.
fn bind_in(scope: &mut Vec<(String, Value)>, name: String, value: Value)
    ensures
        scope_view(final(scope)) == bind(scope_view(old(scope)), name@, value@),
{
    let ghost before = scope_view(scope);
    let ghost binding = (name@, value@);
    match find_binding(scope, &name) {
        Some(i) => {
            scope.set(i, (name, value));
            assert(scope_view(scope) =~= before.update(i as int, binding));
        },
        None => {
            scope.push((name, value));
            assert(scope_view(scope) =~= before.push(binding));
        },
    }
}

/// Binds each of `names` to the value at the same place in `values`, or to
/// nil.
fn bind_all_in(scope: &mut Vec<(String, Value)>, names: &Vec<String>, values: &Vec<Value>)
    ensures
        scope_view(final(scope)) == bind_all(
            scope_view(old(scope)),
            names_view(names),
            values_view(values),
            0,
        ),
{
    let ghost before = scope_view(scope);
    let mut i: usize = 0;
    while i < names.len()
        invariant
            i <= names.len(),
            bind_all(before, names_view(names), values_view(values), 0) == bind_all(
                scope_view(scope),
                names_view(names),
                values_view(values),
                i as int,
            ),
        decreases names.len() - i,
    {
        let value = if i < values.len() {
            copy_value(&values[i])
        } else {
            Value::Nil
        };
        bind_in(scope, names[i].clone(), value);
        i += 1;
    }
}

/// The index of the first pair of a table whose key is equal to `key`.
fn find_key(pairs: &Vec<(Value, Value)>, key: &Value) -> (found: Option<usize>)
    ensures
        found matches Some(i) ==> i < pairs.len(),
        match found {
            Some(i) => Some(i as int),
            None => None,
        } == key_index(pairs_view(pairs), key@, 0),
{
    let mut i: usize = 0;
    while i < pairs.len()
        invariant
            i <= pairs.len(),
            key_index(pairs_view(pairs), key@, 0) == key_index(pairs_view(pairs), key@, i as int),
        decreases pairs.len() - i,
    {
        if pairs[i].0 == *key {
            return Some(i);
        }
        i += 1;
    }
    None
}

/// Enters `value` under `key` in a table.
fn set_in(pairs: &mut Vec<(Value, Value)>, key: Value, value: Value)
    ensures
        pairs_view(final(pairs)) == table_set(pairs_view(old(pairs)), key@, value@),
{
    let ghost before = pairs_view(pairs);
    let ghost pair = (key@, value@);
    match find_key(pairs, &key) {
        Some(i) => {
            pairs.set(i, (key, value));
            assert(pairs_view(pairs) =~= before.update(i as int, pair));
        },
        None => {
            pairs.push((key, value));
            assert(pairs_view(pairs) =~= before.push(pair));
        },
    }
}

/// The name of the type of a value.
fn type_of(value: &Value) -> (name: String)
    ensures
        name@ == name_of_type(value@),
{
    match value {
        Value::Nil => "nil".to_owned(),
        Value::Boolean(_) => "boolean".to_owned(),
        Value::Number(_) => "number".to_owned(),
        Value::String(_) => "string".to_owned(),
        Value::Table(_) => "table".to_owned(),
        Value::Function(_) => "function".to_owned(),
    }
}

/// What a unary operator comes to on a value.
fn apply_unary(operator: UnaryOperator, value: &Value) -> (outcome: Outcome)
    ensures
        outcome@ == unary_outcome(operator, value@),
{
    match operator {
        UnaryOperator::Not => Outcome::Done(value.not()),
        UnaryOperator::Minus => value.negate(),
        UnaryOperator::Length => Outcome::Done(value.length()),
    }
}

/// What a binary operator comes to on two values.
fn apply_binary(operator: BinaryOperator, left: &Value, right: &Value) -> (outcome: Outcome)
    ensures
        outcome@ == binary_outcome(operator, left@, right@),
{
    match operator {
        BinaryOperator::Add => left.add(right),
        BinaryOperator::Subtract => left.subtract(right),
        BinaryOperator::Multiply => left.multiply(right),
        BinaryOperator::Divide => left.divide(right),
        BinaryOperator::Modulo => left.modulo(right),
        BinaryOperator::Power => left.power(right),
        BinaryOperator::Concat => left.concat(right),
        BinaryOperator::Equal => Outcome::Done(left.equal(right)),
        BinaryOperator::NotEqual => Outcome::Done(left.not_equal(right)),
        BinaryOperator::LessThan => left.less_than(right),
        BinaryOperator::LessEqual => left.less_equal(right),
        BinaryOperator::GreaterThan => left.greater_than(right),
        BinaryOperator::GreaterEqual => left.greater_equal(right),
        BinaryOperator::And => Outcome::Done(Value::Boolean(left.is_truthy() && right.is_truthy())),
        BinaryOperator::Or => Outcome::Done(Value::Boolean(left.is_truthy() || right.is_truthy())),
    }
}

/// Whether a numeric `for` loop runs a turn for `current`.
fn loop_continues(current: &Number, end: &Number, step: &Number) -> (r: bool)
    ensures
        r == for_continues(*current, *end, *step),
{
    let zero = Number::zero();
    (zero.less_than(step) && current.less_equal(end)) || (step.less_than(&zero) && end.less_equal(
        current,
    ))
}

/// The number that a value is, or `default`.
fn as_number_or(value: &Value, default: Number) -> (n: Number)
    ensures
        n == number_or(value@, default),
{
    match value {
        Value::Number(n) => *n,
        _ => default,
    }
}

/// A tree-walking evaluator that runs in steps.
///
/// It holds the global table, which lasts as long as the evaluator, and what
/// is left to do of the statements it was given. It does no arithmetic on
/// doubles, reads and writes no numbers as text, and prints nothing: where a
/// step needs one of these it ends in [`Status::Waiting`] with a request, and
/// the next step takes the host's answer.
#[derive(Debug)]
pub struct Vm {
    globals: Vec<(String, Value)>,
    stack: Vec<Value>,
    call_stack: Vec<CallFrame>,
    tasks: Vec<Task>,
}

impl View for Vm {
    type V = VmView;

    closed spec fn view(&self) -> VmView {
        VmView {
            globals: scope_view(&self.globals),
            stack: values_view(&self.stack),
            frames: frames_view(&self.call_stack),
            tasks: tasks_view(&self.tasks),
        }
    }
}

/// The state of an evaluator that was given statements to run: its global
/// table, no value, no call frame, and the statements as the one task.
pub open spec fn loaded(globals: Seq<(Seq<char>, ValueView)>, stmts: Seq<StmtView>) -> VmView {
    VmView {
        globals,
        stack: Seq::empty(),
        frames: Seq::empty(),
        tasks: seq![TaskView::Block { stmts, next: 0 }],
    }
}

/// The global table that every evaluator starts with: the four builtins.
pub open spec fn builtins() -> Seq<(Seq<char>, ValueView)> {
    seq![
        ("print"@, ValueView::Function(FunctionView::Native(Builtin::Print))),
        ("type"@, ValueView::Function(FunctionView::Native(Builtin::Type))),
        ("tonumber"@, ValueView::Function(FunctionView::Native(Builtin::ToNumber))),
        ("tostring"@, ValueView::Function(FunctionView::Native(Builtin::ToString))),
    ]
}

impl Vm {
    /// An evaluator with the builtins in its global table and nothing to do.
    pub fn new() -> (vm: Vm)
        ensures
            vm@ == (VmView {
                globals: builtins(),
                stack: Seq::empty(),
                frames: Seq::empty(),
                tasks: Seq::empty(),
            }),
    {
        let mut vm = Vm {
            globals: Vec::new(),
            stack: Vec::new(),
            call_stack: Vec::new(),
            tasks: Vec::new(),
        };
        vm.setup_builtins();
        assert(vm@.stack =~= Seq::empty());
        assert(vm@.frames =~= Seq::empty());
        assert(vm@.tasks =~= Seq::empty());
        vm
    }

    /// Enters the builtins into the global table.
    fn setup_builtins(&mut self)
        requires
            old(self).globals.len() == 0,
        ensures
            scope_view(&final(self).globals) == builtins(),
            final(self).stack == old(self).stack,
            final(self).call_stack == old(self).call_stack,
            final(self).tasks == old(self).tasks,
    {
        self.globals.push(("print".to_owned(), Value::Function(Function::Native(Builtin::Print))));
        self.globals.push(("type".to_owned(), Value::Function(Function::Native(Builtin::Type))));
        self.globals.push(
            ("tonumber".to_owned(), Value::Function(Function::Native(Builtin::ToNumber))),
        );
        self.globals.push(
            ("tostring".to_owned(), Value::Function(Function::Native(Builtin::ToString))),
        );
        assert(scope_view(&self.globals) =~= builtins());
    }

    /// Gives the evaluator statements to run, in place of what it had left to
    /// do. The global table stays; the value stack and the call frames are
    /// emptied. The statements run as a block, step by step.
    pub fn execute(&mut self, stmts: Vec<Stmt>)
        ensures
            final(self)@ == loaded(old(self)@.globals, stmts_view(&stmts)),
    {
        let ghost block = TaskView::Block { stmts: stmts_view(&stmts), next: 0 };
        self.stack = Vec::new();
        self.call_stack = Vec::new();
        self.tasks = Vec::new();
        self.tasks.push(Task::Block { stmts, next: 0 });
        assert(self@.stack =~= Seq::empty());
        assert(self@.frames =~= Seq::empty());
        assert(self@.tasks =~= seq![block]);
    }

    /// Whether the next step has to bind a local variable and no call frame
    /// is open to hold it: a `local` declaration, a local function or a
    /// numeric `for` loop outside every function. [`Vm::step`] cannot be
    /// called then.
    pub fn frame_missing(&self) -> (missing: bool)
        ensures
            missing == self@.frame_missing(),
    {
        if self.tasks.len() == 0 || self.call_stack.len() > 0 {
            return false;
        }
        match &self.tasks[self.tasks.len() - 1] {
            Task::Assign { local, .. } => *local,
            Task::Exec(Stmt::LocalFunction { .. }) => true,
            Task::ForLoop { end, step, .. } => {
                if self.stack.len() == 0 {
                    false
                } else {
                    match &self.stack[self.stack.len() - 1] {
                        Value::Number(current) => loop_continues(current, end, step),
                        _ => false,
                    }
                }
            },
            _ => false,
        }
    }

    /// Does the next task. `reply` is the host's answer if the step before
    /// ended in [`Status::Waiting`]; else it is not looked at.
    ///
    /// What the steps add up to is proved in [`crate::semantics`]: stepped
    /// with its host answering, the evaluator does what the statements mean.
    pub fn step(&mut self, reply: Reply) -> (status: Status)
        requires
            !old(self)@.frame_missing(),
        ensures
            (final(self)@, status@) == old(self)@.step(reply@),
    {
        let ghost before = self@;
        let task = match self.tasks.pop() {
            Some(task) => task,
            None => {
                let value = self.pop_value();
                return Status::Finished(value);
            },
        };
        assert(self@ == (VmView { tasks: before.tasks.drop_last(), ..before })) by {
            assert(self@.tasks =~= before.tasks.drop_last());
        }
        assert(task@ == before.tasks.last());
        match task {
            Task::Eval(e) => self.evaluate_expr(e),
            Task::EvalList { exprs, next } => self.evaluate_list(exprs, next),
            Task::Exec(s) => self.execute_stmt(s),
            Task::Block { stmts, next } => self.execute_block(stmts, next),
            Task::Discard => {
                let _ = self.pop_value();
                Status::Running
            },
            Task::Push(value) => {
                self.push_value(value);
                Status::Running
            },
            Task::Unary(operator) => self.evaluate_unary_op(operator),
            Task::Binary(operator) => self.evaluate_binary_op(operator),
            Task::Receive { expect, fallback, slot } => self.receive(expect, fallback, slot, reply),
            Task::Call { callee, count } => self.evaluate_function_call(callee, count),
            Task::PopFrame => {
                let ghost frames = self@.frames;
                let _ = self.call_stack.pop();
                assert(frames.len() > 0 ==> self@.frames =~= frames.drop_last());
                Status::Running
            },
            Task::Index => self.evaluate_table_access(),
            Task::BuildTable { fields, next, pairs, pending } => self.evaluate_table_constructor(
                fields,
                next,
                pairs,
                pending,
            ),
            Task::Assign { variables, count, local } => self.execute_assignment(variables, count, local),
            Task::KeepFirst { count } => self.execute_return(count),
            Task::IfTest { then_block, else_if_blocks, else_block, index } => self.execute_if(
                then_block,
                else_if_blocks,
                else_block,
                index,
            ),
            Task::WhileTest { condition, body } => self.execute_while(condition, body),
            Task::RepeatTest { body, condition } => self.execute_repeat(body, condition),
            Task::Coerce { default } => self.coerce(default),
            Task::ForInit { variable, body } => self.start_for(variable, body),
            Task::ForLoop { variable, body, end, step } => self.execute_for(variable, body, end, step),
            Task::ForStep { variable, body, current, end, step } => self.advance_for(
                variable,
                body,
                current,
                end,
                step,
            ),
            Task::Print { args, next, line, pending } => self.print_line(
                args,
                next,
                line,
                pending,
                reply,
            ),
        }
    }

    /// Steps until the host is needed or the statements have run, but at most
    /// `limit` times, and not where a call frame is missing. `reply` is the
    /// host's answer to the request before, if there was one. Gives
    /// [`Status::Running`] if it stopped for the limit or for a missing frame,
    /// which [`Vm::frame_missing`] tells apart.
    pub fn run(&mut self, reply: Reply, limit: usize) -> (status: Status)
        ensures
            (final(self)@, status@) == old(self)@.run(reply@, limit as nat),
    {
        let mut answer = reply;
        let mut left = limit;
        loop
            invariant
                old(self)@.run(reply@, limit as nat) == self@.run(answer@, left as nat),
            decreases left,
        {
            if left == 0 || self.frame_missing() {
                return Status::Running;
            }
            match self.step(answer) {
                Status::Running => {
                    answer = Reply::Nothing;
                    left = left - 1;
                },
                status => {
                    return status;
                },
            }
        }
    }

    /// Schedules a task as the next one.
    fn push_task(&mut self, task: Task)
        ensures
            final(self)@ == old(self)@.with_task(task@),
    {
        let ghost view = task@;
        self.tasks.push(task);
        assert(self@.tasks =~= old(self)@.tasks.push(view));
    }

    /// Puts a value on the stack.
    fn push_value(&mut self, value: Value)
        ensures
            final(self)@ == old(self)@.with_value(value@),
    {
        let ghost view = value@;
        self.stack.push(value);
        assert(self@.stack =~= old(self)@.stack.push(view));
    }

    /// Takes the value on top of the stack; nil if the stack is empty.
    fn pop_value(&mut self) -> (value: Value)
        ensures
            value@ == old(self)@.top(),
            final(self)@ == old(self)@.dropped(),
    {
        match self.stack.pop() {
            Some(value) => {
                assert(self@.stack =~= old(self)@.stack.drop_last());
                value
            },
            None => Value::Nil,
        }
    }

    /// Takes the `count` values on top of the stack, or all if there are
    /// fewer.
    fn pop_values(&mut self, count: usize) -> (values: Vec<Value>)
        ensures
            values_view(&values) == old(self)@.top_values(count as nat),
            final(self)@ == old(self)@.dropped_values(count as nat),
    {
        let available = if count <= self.stack.len() {
            count
        } else {
            self.stack.len()
        };
        let values = self.stack.split_off(self.stack.len() - available);
        assert(values_view(&values) =~= old(self)@.top_values(count as nat));
        assert(self@.stack =~= old(self)@.dropped_values(count as nat).stack);
        values
    }

    /// Puts a value in place of the one `depth` below the top of the stack.
    fn replace_value(&mut self, depth: usize, value: Value)
        ensures
            final(self)@ == old(self)@.with_replaced(depth, value@),
    {
        if depth < self.stack.len() {
            let ghost view = value@;
            let at = self.stack.len() - 1 - depth;
            self.stack.set(at, value);
            assert(self@.stack =~= old(self)@.stack.update(at as int, view));
        }
    }

    /// Binds a name in the innermost call frame.
    fn bind_local(&mut self, name: String, value: Value)
        requires
            old(self).call_stack.len() > 0,
        ensures
            final(self)@ == old(self)@.with_locals(bind(old(self)@.locals(), name@, value@)),
    {
        let ghost frames = self@.frames;
        match self.call_stack.pop() {
            Some(frame) => {
                let mut frame = frame;
                bind_in(&mut frame.locals, name, value);
                let ghost locals = frame@;
                self.call_stack.push(frame);
                assert(self@.frames =~= frames.update(frames.len() - 1, locals));
            },
            None => {},
        }
    }

    /// The value of a variable.
    fn get_variable(&self, name: &String) -> (value: Value)
        ensures
            value@ == self@.variable(name@),
    {
        let ghost frames = self@.frames;
        let mut i: usize = self.call_stack.len();
        assert(frames.take(i as int) =~= frames);
        while i > 0
            invariant
                i <= self.call_stack.len(),
                frames == frames_view(&self.call_stack),
                frame_lookup(frames, name@) == frame_lookup(frames.take(i as int), name@),
            decreases i,
        {
            assert(frames.take(i as int).drop_last() =~= frames.take(i - 1));
            i -= 1;
            match lookup_in(&self.call_stack[i].locals, name) {
                Some(value) => {
                    return value;
                },
                None => {},
            }
        }
        assert(frames.take(0).len() == 0);
        match lookup_in(&self.globals, name) {
            Some(value) => value,
            None => Value::Nil,
        }
    }

    /// Evaluates an expression: its value is put on the stack, now or by the
    /// tasks that are scheduled.
    fn evaluate_expr(&mut self, expr: Expr) -> (status: Status)
        ensures
            (final(self)@, status@) == old(self)@.eval(expr@),
    {
        match expr {
            Expr::Number(text) => {
                self.push_task(
                    Task::Receive { expect: Expect::Number, fallback: Value::Nil, slot: Slot::Push },
                );
                Status::Waiting(Request::Parse(text))
            },
            Expr::String(text) => {
                self.push_value(Value::String(text));
                Status::Running
            },
            Expr::Boolean(b) => {
                self.push_value(Value::Boolean(b));
                Status::Running
            },
            Expr::Nil => {
                self.push_value(Value::Nil);
                Status::Running
            },
            Expr::Identifier(name) => {
                let value = self.get_variable(&name);
                self.push_value(value);
                Status::Running
            },
            Expr::UnaryOp { operator, operand } => {
                self.push_task(Task::Unary(operator));
                self.push_task(Task::Eval(*operand));
                Status::Running
            },
            Expr::BinaryOp { left, operator, right } => {
                self.push_task(Task::Binary(operator));
                self.push_task(Task::Eval(*right));
                self.push_task(Task::Eval(*left));
                Status::Running
            },
            Expr::FunctionCall { name, arguments } => {
                let callee = self.get_variable(&name);
                let count = arguments.len();
                self.push_task(Task::Call { callee, count });
                self.push_task(Task::EvalList { exprs: arguments, next: 0 });
                Status::Running
            },
            Expr::TableAccess { table, key } => {
                self.push_task(Task::Index);
                self.push_task(Task::Eval(*key));
                self.push_task(Task::Eval(*table));
                Status::Running
            },
            Expr::TableConstructor { fields } => {
                let pairs: Vec<(Value, Value)> = Vec::new();
                assert(pairs_view(&pairs) =~= Seq::empty());
                self.push_task(
                    Task::BuildTable { fields, next: 0, pairs, pending: PendingKey::Idle },
                );
                Status::Running
            },
        }
    }

    /// Goes on with a list of expressions.
    fn evaluate_list(&mut self, exprs: Vec<Expr>, next: usize) -> (status: Status)
        ensures
            (final(self)@, status@) == old(self)@.eval_list(exprs_view(&exprs), next as nat),
    {
        if next < exprs.len() {
            let expr = copy_expr(&exprs[next]);
            self.push_task(Task::EvalList { exprs, next: next + 1 });
            self.push_task(Task::Eval(expr));
        }
        Status::Running
    }

    /// Executes a statement: its value is put on the stack, now or by the
    /// tasks that are scheduled.
    fn execute_stmt(&mut self, stmt: Stmt) -> (status: Status)
        requires
            stmt is LocalFunction ==> old(self).call_stack.len() > 0,
        ensures
            (final(self)@, status@) == old(self)@.exec(stmt@),
    {
        match stmt {
            Stmt::Expr(e) => {
                self.push_task(Task::Eval(e));
            },
            Stmt::Assignment { variables, values } => {
                let count = values.len();
                self.push_task(Task::Assign { variables, count, local: false });
                self.push_task(Task::EvalList { exprs: values, next: 0 });
            },
            Stmt::LocalAssignment { variables, values } => {
                let count = values.len();
                self.push_task(Task::Assign { variables, count, local: true });
                self.push_task(Task::EvalList { exprs: values, next: 0 });
            },
            Stmt::If { condition, then_block, else_if_blocks, else_block } => {
                self.push_task(Task::IfTest { then_block, else_if_blocks, else_block, index: 0 });
                self.push_task(Task::Eval(condition));
            },
            Stmt::While { condition, body } => {
                let test = copy_expr(&condition);
                self.push_task(Task::WhileTest { condition, body });
                self.push_task(Task::Eval(test));
            },
            Stmt::Repeat { body, condition } => {
                let test = copy_expr(&condition);
                let block = copy_stmts(&body);
                self.push_task(Task::RepeatTest { body, condition });
                self.push_task(Task::Eval(test));
                self.push_task(Task::Discard);
                self.push_task(Task::Block { stmts: block, next: 0 });
            },
            Stmt::For { variable, start, end, step, body } => {
                self.push_task(Task::ForInit { variable, body });
                match step {
                    Some(e) => {
                        self.push_task(Task::Coerce { default: Number::one() });
                        self.push_task(Task::Eval(e));
                    },
                    None => {
                        self.push_task(Task::Push(Value::Number(Number::one())));
                    },
                }
                self.push_task(Task::Coerce { default: Number::zero() });
                self.push_task(Task::Eval(end));
                self.push_task(Task::Coerce { default: Number::zero() });
                self.push_task(Task::Eval(start));
            },
            Stmt::Function { name, parameters, body } => {
                let closure: Vec<(String, Value)> = Vec::new();
                assert(scope_view(&closure) =~= Seq::empty());
                let function = Value::Function(Function::UserDefined { parameters, body, closure });
                bind_in(&mut self.globals, name, function);
                self.push_value(Value::Nil);
            },
            Stmt::LocalFunction { name, parameters, body } => {
                let closure: Vec<(String, Value)> = Vec::new();
                assert(scope_view(&closure) =~= Seq::empty());
                let function = Value::Function(Function::UserDefined { parameters, body, closure });
                self.bind_local(name, function);
                self.push_value(Value::Nil);
            },
            Stmt::Return(None) => {
                self.push_value(Value::Nil);
            },
            Stmt::Return(Some(values)) => {
                let count = values.len();
                self.push_task(Task::KeepFirst { count });
                self.push_task(Task::EvalList { exprs: values, next: 0 });
            },
            Stmt::Break => {
                self.push_value(Value::Nil);
            },
        }
        Status::Running
    }

    /// Goes on with a block: drops the value of the statement before and
    /// schedules the next one.
    fn execute_block(&mut self, stmts: Vec<Stmt>, next: usize) -> (status: Status)
        ensures
            (final(self)@, status@) == old(self)@.block(stmts_view(&stmts), next as nat),
    {
        if next < stmts.len() {
            if next > 0 {
                let _ = self.pop_value();
            }
            let stmt = copy_stmt(&stmts[next]);
            self.push_task(Task::Block { stmts, next: next + 1 });
            self.push_task(Task::Exec(stmt));
        } else if stmts.len() == 0 {
            self.push_value(Value::Nil);
        }
        Status::Running
    }

    /// Gives an operation its result, or puts its operands back and asks the
    /// host for what the operation needs.
    fn settle(&mut self, outcome: Outcome, operands: Vec<Value>, retry: Task) -> (status: Status)
        ensures
            (final(self)@, status@) == old(self)@.settle(outcome@, values_view(&operands), retry@),
    {
        let depth: usize = if operands.len() > 1 {
            1
        } else {
            0
        };
        match outcome {
            Outcome::Done(value) => {
                self.push_value(value);
                Status::Running
            },
            Outcome::Parse { operand, text } => {
                self.push_values(operands);
                self.push_task(retry);
                self.push_task(
                    Task::Receive {
                        expect: Expect::Number,
                        fallback: Value::Nil,
                        slot: Slot::Replace(
                            if operand == 0 {
                                depth
                            } else {
                                0
                            },
                        ),
                    },
                );
                Status::Waiting(Request::Parse(text))
            },
            Outcome::Format { operand, number } => {
                self.push_values(operands);
                self.push_task(retry);
                self.push_task(
                    Task::Receive {
                        expect: Expect::Text,
                        fallback: Value::String(String::new()),
                        slot: Slot::Replace(
                            if operand == 0 {
                                depth
                            } else {
                                0
                            },
                        ),
                    },
                );
                Status::Waiting(Request::Format(number))
            },
            Outcome::Arithmetic { operator, left, right } => {
                self.push_task(
                    Task::Receive { expect: Expect::Number, fallback: Value::Nil, slot: Slot::Push },
                );
                Status::Waiting(Request::Arithmetic(operator, left, right))
            },
        }
    }

    /// Puts values on the stack, the last one on top.
    fn push_values(&mut self, values: Vec<Value>)
        ensures
            final(self)@ == (VmView {
                stack: old(self)@.stack + values_view(&values),
                ..old(self)@
            }),
    {
        let ghost views = values_view(&values);
        let mut values = values;
        self.stack.append(&mut values);
        assert(self@.stack =~= old(self)@.stack + views);
    }

    /// Applies a unary operator to the value on top of the stack.
    fn evaluate_unary_op(&mut self, operator: UnaryOperator) -> (status: Status)
        ensures
            (final(self)@, status@) == old(self)@.unary(operator),
    {
        let value = self.pop_value();
        let outcome = apply_unary(operator, &value);
        let ghost view = value@;
        let mut operands: Vec<Value> = Vec::new();
        operands.push(value);
        assert(values_view(&operands) =~= seq![view]);
        self.settle(outcome, operands, Task::Unary(operator))
    }

    /// Applies a binary operator to the two values on top of the stack.
    fn evaluate_binary_op(&mut self, operator: BinaryOperator) -> (status: Status)
        ensures
            (final(self)@, status@) == old(self)@.binary(operator),
    {
        let right = self.pop_value();
        let left = self.pop_value();
        let outcome = apply_binary(operator, &left, &right);
        let ghost views = seq![left@, right@];
        let mut operands: Vec<Value> = Vec::new();
        operands.push(left);
        operands.push(right);
        assert(values_view(&operands) =~= views);
        self.settle(outcome, operands, Task::Binary(operator))
    }

    /// Takes an answer of the host.
    fn receive(&mut self, expect: Expect, fallback: Value, slot: Slot, reply: Reply) -> (status:
        Status)
        ensures
            (final(self)@, status@) == old(self)@.receive(expect, fallback@, slot, reply@),
    {
        let value = match (expect, reply) {
            (Expect::Number, Reply::Number(n)) => Value::Number(n),
            (Expect::Text, Reply::Text(text)) => Value::String(text),
            _ => fallback,
        };
        match slot {
            Slot::Push => self.push_value(value),
            Slot::Replace(depth) => self.replace_value(depth, value),
        }
        Status::Running
    }

    /// Calls a builtin.
    fn call_builtin(&mut self, builtin: Builtin, args: Vec<Value>) -> (status: Status)
        ensures
            (final(self)@, status@) == old(self)@.call_builtin(builtin, values_view(&args)),
    {
        match builtin {
            Builtin::Print => {
                self.push_task(Task::Print { args, next: 0, line: String::new(), pending: false });
                Status::Running
            },
            Builtin::Type => {
                if args.len() == 1 {
                    self.push_value(Value::String(type_of(&args[0])));
                } else {
                    self.push_value(Value::Nil);
                }
                Status::Running
            },
            Builtin::ToNumber => {
                if args.len() == 0 {
                    self.push_value(Value::Nil);
                    return Status::Running;
                }
                match args[0].to_number() {
                    Coercion::Number(n) => {
                        self.push_value(Value::Number(n));
                        Status::Running
                    },
                    Coercion::Text(text) => {
                        self.push_task(
                            Task::Receive {
                                expect: Expect::Number,
                                fallback: Value::Nil,
                                slot: Slot::Push,
                            },
                        );
                        Status::Waiting(Request::Parse(text))
                    },
                    Coercion::Absent => {
                        self.push_value(Value::Nil);
                        Status::Running
                    },
                }
            },
            Builtin::ToString => {
                if args.len() == 0 {
                    self.push_value(Value::String(String::new()));
                    return Status::Running;
                }
                match args[0].to_string() {
                    Rendering::Text(text) => {
                        self.push_value(Value::String(text));
                        Status::Running
                    },
                    Rendering::Number(n) => {
                        self.push_task(
                            Task::Receive {
                                expect: Expect::Text,
                                fallback: Value::String(String::new()),
                                slot: Slot::Push,
                            },
                        );
                        Status::Waiting(Request::Format(n))
                    },
                }
            },
        }
    }

    /// Calls `callee` with the `count` values on top of the stack.
    fn evaluate_function_call(&mut self, callee: Value, count: usize) -> (status: Status)
        ensures
            (final(self)@, status@) == old(self)@.call(callee@, count as nat),
    {
        let args = self.pop_values(count);
        match callee {
            Value::Function(Function::Native(builtin)) => self.call_builtin(builtin, args),
            Value::Function(Function::UserDefined { parameters, body, closure }) => {
                self.execute_user_function(&parameters, body, args);
                Status::Running
            },
            _ => {
                self.push_value(Value::Nil);
                Status::Running
            },
        }
    }

    /// Opens a call frame that binds the parameters to the arguments and
    /// schedules the body, with the closing of the frame behind it.
    fn execute_user_function(&mut self, parameters: &Vec<String>, body: Vec<Stmt>, args: Vec<Value>)
        ensures
            final(self)@ == (VmView {
                frames: old(self)@.frames.push(
                    bind_all(Seq::empty(), names_view(parameters), values_view(&args), 0),
                ),
                ..old(self)@
            }).with_task(TaskView::PopFrame).with_task(
                TaskView::Block { stmts: stmts_view(&body), next: 0 },
            ),
    {
        let mut locals: Vec<(String, Value)> = Vec::new();
        assert(scope_view(&locals) =~= Seq::empty());
        bind_all_in(&mut locals, parameters, &args);
        let frame = CallFrame { locals };
        let ghost view = frame@;
        self.call_stack.push(frame);
        assert(self@.frames =~= old(self)@.frames.push(view));
        self.push_task(Task::PopFrame);
        self.push_task(Task::Block { stmts: body, next: 0 });
    }

    /// Goes on writing the line of `print`.
    fn print_line(&mut self, args: Vec<Value>, next: usize, line: String, pending: bool, reply: Reply)
        -> (status: Status)
        ensures
            (final(self)@, status@) == old(self)@.print(
                values_view(&args),
                next as nat,
                line@,
                pending,
                reply@,
            ),
    {
        if next >= args.len() {
            self.push_task(
                Task::Receive { expect: Expect::Nothing, fallback: Value::Nil, slot: Slot::Push },
            );
            return Status::Waiting(Request::Print(line));
        }
        let text = if pending {
            match reply {
                Reply::Text(text) => text,
                _ => String::new(),
            }
        } else {
            match args[next].to_string() {
                Rendering::Text(text) => text,
                Rendering::Number(n) => {
                    self.push_task(Task::Print { args, next, line, pending: true });
                    return Status::Waiting(Request::Format(n));
                },
            }
        };
        let ghost before = line@;
        let mut line = line;
        if next > 0 {
            proof {
                reveal_strlit("\t");
                assert("\t"@ =~= seq!['\t']);
            }
            line.append("\t");
        }
        line.append(text.as_str());
        assert(line@ =~= before + separator(next as nat) + text@);
        self.push_task(Task::Print { args, next: next + 1, line, pending: false });
        Status::Running
    }

    /// Looks the key on top of the stack up in the table below it.
    fn evaluate_table_access(&mut self) -> (status: Status)
        ensures
            (final(self)@, status@) == old(self)@.index(),
    {
        let key = self.pop_value();
        let table = self.pop_value();
        let value = match &table {
            Value::Table(pairs) => match find_key(pairs, &key) {
                Some(i) => copy_value(&pairs[i].1),
                None => Value::Nil,
            },
            _ => Value::Nil,
        };
        self.push_value(value);
        Status::Running
    }

    /// Goes on building a table.
    fn evaluate_table_constructor(
        &mut self,
        fields: Vec<TableField>,
        next: usize,
        pairs: Vec<(Value, Value)>,
        pending: PendingKey,
    ) -> (status: Status)
        ensures
            (final(self)@, status@) == old(self)@.build_table(
                fields_view(&fields),
                next as nat,
                pairs_view(&pairs),
                pending@,
            ),
    {
        let mut pairs = pairs;
        match pending {
            PendingKey::Idle => {},
            PendingKey::Position => {
                let value = self.pop_value();
                let position = if pairs.len() < usize::MAX {
                    pairs.len() + 1
                } else {
                    pairs.len()
                };
                set_in(&mut pairs, Value::Number(Number::from_length(position)), value);
            },
            PendingKey::Name(name) => {
                let value = self.pop_value();
                set_in(&mut pairs, Value::String(name), value);
            },
        }
        if next < fields.len() {
            let (key, expr) = match &fields[next] {
                TableField::Value(e) => (PendingKey::Position, copy_expr(e)),
                TableField::KeyValue(name, e) => (PendingKey::Name(name.clone()), copy_expr(e)),
            };
            self.push_task(Task::BuildTable { fields, next: next + 1, pairs, pending: key });
            self.push_task(Task::Eval(expr));
        } else {
            self.push_value(Value::Table(Rc::new(pairs)));
        }
        Status::Running
    }

    /// Assigns the `count` values on top of the stack to the variables: in
    /// the innermost call frame if `local`, else in the global table.
    fn execute_assignment(&mut self, variables: Vec<String>, count: usize, local: bool) -> (status: Status)
        requires
            local ==> old(self).call_stack.len() > 0,
        ensures
            (final(self)@, status@) == old(self)@.assign(names_view(&variables), count as nat, local),
    {
        let values = self.pop_values(count);
        if local {
            let ghost frames = self@.frames;
            match self.call_stack.pop() {
                Some(frame) => {
                    let mut frame = frame;
                    bind_all_in(&mut frame.locals, &variables, &values);
                    let ghost locals = frame@;
                    self.call_stack.push(frame);
                    assert(self@.frames =~= frames.update(frames.len() - 1, locals));
                },
                None => {},
            }
        } else {
            bind_all_in(&mut self.globals, &variables, &values);
        }
        self.push_value(Value::Nil);
        Status::Running
    }

    /// Keeps the first of the `count` values on top of the stack.
    fn execute_return(&mut self, count: usize) -> (status: Status)
        ensures
            (final(self)@, status@) == old(self)@.keep_first(count as nat),
    {
        let values = self.pop_values(count);
        let value = if values.len() > 0 {
            copy_value(&values[0])
        } else {
            Value::Nil
        };
        self.push_value(value);
        Status::Running
    }

    /// Branches on the condition on top of the stack.
    fn execute_if(
        &mut self,
        then_block: Vec<Stmt>,
        else_if_blocks: Vec<(Expr, Vec<Stmt>)>,
        else_block: Option<Vec<Stmt>>,
        index: usize,
    ) -> (status: Status)
        ensures
            (final(self)@, status@) == old(self)@.if_test(
                stmts_view(&then_block),
                branches_view(&else_if_blocks),
                match else_block {
                    Some(block) => Some(stmts_view(&block)),
                    None => None,
                },
                index as nat,
            ),
    {
        let condition = self.pop_value();
        if condition.is_truthy() {
            let block = if index == 0 {
                then_block
            } else if index - 1 < else_if_blocks.len() {
                copy_stmts(&else_if_blocks[index - 1].1)
            } else {
                let none: Vec<Stmt> = Vec::new();
                assert(stmts_view(&none) =~= Seq::empty());
                none
            };
            self.push_task(Task::Block { stmts: block, next: 0 });
        } else if index < else_if_blocks.len() {
            let test = copy_expr(&else_if_blocks[index].0);
            self.push_task(
                Task::IfTest { then_block, else_if_blocks, else_block, index: index + 1 },
            );
            self.push_task(Task::Eval(test));
        } else {
            match else_block {
                Some(block) => self.push_task(Task::Block { stmts: block, next: 0 }),
                None => self.push_value(Value::Nil),
            }
        }
        Status::Running
    }

    /// Runs the body of a `while` loop and the loop again if the condition on
    /// top of the stack holds.
    fn execute_while(&mut self, condition: Expr, body: Vec<Stmt>) -> (status: Status)
        ensures
            (final(self)@, status@) == old(self)@.while_test(condition@, stmts_view(&body)),
    {
        let value = self.pop_value();
        if value.is_truthy() {
            let block = copy_stmts(&body);
            self.push_task(Task::Exec(Stmt::While { condition, body }));
            self.push_task(Task::Discard);
            self.push_task(Task::Block { stmts: block, next: 0 });
        } else {
            self.push_value(Value::Nil);
        }
        Status::Running
    }

    /// Runs a `repeat` loop again unless the condition on top of the stack
    /// holds.
    fn execute_repeat(&mut self, body: Vec<Stmt>, condition: Expr) -> (status: Status)
        ensures
            (final(self)@, status@) == old(self)@.repeat_test(stmts_view(&body), condition@),
    {
        let value = self.pop_value();
        if value.is_truthy() {
            self.push_value(Value::Nil);
        } else {
            self.push_task(Task::Exec(Stmt::Repeat { body, condition }));
        }
        Status::Running
    }

    /// Puts the numeric value of the value on top of the stack in its place,
    /// or `default` if it has none.
    fn coerce(&mut self, default: Number) -> (status: Status)
        ensures
            (final(self)@, status@) == old(self)@.coerce(default),
    {
        let value = self.pop_value();
        match value.to_number() {
            Coercion::Number(n) => {
                self.push_value(Value::Number(n));
                Status::Running
            },
            Coercion::Text(text) => {
                self.push_task(
                    Task::Receive {
                        expect: Expect::Number,
                        fallback: Value::Number(default),
                        slot: Slot::Push,
                    },
                );
                Status::Waiting(Request::Parse(text))
            },
            Coercion::Absent => {
                self.push_value(Value::Number(default));
                Status::Running
            },
        }
    }

    /// Starts a numeric `for` loop with the three numbers on top of the
    /// stack.
    fn start_for(&mut self, variable: String, body: Vec<Stmt>) -> (status: Status)
        ensures
            (final(self)@, status@) == old(self)@.for_init(variable@, stmts_view(&body)),
    {
        let step = self.pop_value();
        let end = self.pop_value();
        let start = self.pop_value();
        let step = as_number_or(&step, Number::one());
        let end = as_number_or(&end, Number::zero());
        let start = as_number_or(&start, Number::zero());
        self.push_value(Value::Number(start));
        self.push_task(Task::ForLoop { variable, body, end, step });
        Status::Running
    }

    /// Runs a turn of a numeric `for` loop for the number on top of the
    /// stack, if the loop goes on.
    fn execute_for(&mut self, variable: String, body: Vec<Stmt>, end: Number, step: Number) -> (status:
        Status)
        requires
            old(self)@.top() is Number && for_continues(old(self)@.top()->Number_0, end, step)
                ==> old(self).call_stack.len() > 0,
        ensures
            (final(self)@, status@) == old(self)@.for_loop(variable@, stmts_view(&body), end, step),
    {
        let value = self.pop_value();
        match value {
            Value::Number(current) => {
                if loop_continues(&current, &end, &step) {
                    let block = copy_stmts(&body);
                    self.bind_local(variable.clone(), Value::Number(current));
                    self.push_task(Task::ForStep { variable, body, current, end, step });
                    self.push_task(Task::Block { stmts: block, next: 0 });
                } else {
                    self.push_value(Value::Nil);
                }
            },
            _ => {
                self.push_value(Value::Nil);
            },
        }
        Status::Running
    }

    /// Asks the host for the number of the next turn of a numeric `for`
    /// loop.
    fn advance_for(
        &mut self,
        variable: String,
        body: Vec<Stmt>,
        current: Number,
        end: Number,
        step: Number,
    ) -> (status: Status)
        ensures
            (final(self)@, status@) == old(self)@.for_step(
                variable@,
                stmts_view(&body),
                current,
                end,
                step,
            ),
    {
        let _ = self.pop_value();
        self.push_task(Task::ForLoop { variable, body, end, step });
        self.push_task(
            Task::Receive { expect: Expect::Number, fallback: Value::Nil, slot: Slot::Push },
        );
        Status::Waiting(Request::Arithmetic(BinaryOperator::Add, current, step))
    }
}

/// What [`binding_index`] finds is the first binding of the name at or after
/// `from`; it finds none only if there is none.
pub proof fn lemma_binding_index(scope: Seq<(Seq<char>, ValueView)>, name: Seq<char>, from: int)
    requires
        0 <= from,
    ensures
        match binding_index(scope, name, from) {
            Some(i) => from <= i < scope.len() && scope[i].0 == name && forall|j: int|
                from <= j < i ==> scope[j].0 != name,
            None => forall|j: int| from <= j < scope.len() ==> scope[j].0 != name,
        },
    decreases scope.len() - from,
{
    if from < scope.len() && scope[from].0 != name {
        lemma_binding_index(scope, name, from + 1);
    }
}

/// The first binding of a name, found by its place.
pub proof fn lemma_binding_index_is(
    scope: Seq<(Seq<char>, ValueView)>,
    name: Seq<char>,
    from: int,
    at: int,
)
    requires
        0 <= from <= at < scope.len(),
        scope[at].0 == name,
        forall|j: int| from <= j < at ==> scope[j].0 != name,
    ensures
        binding_index(scope, name, from) == Some(at),
    decreases at - from,
{
    if from < at {
        lemma_binding_index_is(scope, name, from + 1, at);
    }
}

/// No binding of a name, no index.
pub proof fn lemma_binding_index_none(scope: Seq<(Seq<char>, ValueView)>, name: Seq<char>, from: int)
    requires
        0 <= from,
        forall|j: int| from <= j < scope.len() ==> scope[j].0 != name,
    ensures
        binding_index(scope, name, from) is None,
    decreases scope.len() - from,
{
    if from < scope.len() {
        lemma_binding_index_none(scope, name, from + 1);
    }
}

/// A scope is a map from names to values: after `name` is bound to `value`,
/// looking `name` up gives `value`, and looking any other name up gives what
/// it gave before.
pub proof fn lemma_lookup_after_bind(
    scope: Seq<(Seq<char>, ValueView)>,
    name: Seq<char>,
    value: ValueView,
    other: Seq<char>,
)
    ensures
        lookup(bind(scope, name, value), other) == if other == name {
            Some(value)
        } else {
            lookup(scope, other)
        },
{
    let bound = bind(scope, name, value);
    lemma_binding_index(scope, name, 0);
    lemma_binding_index(scope, other, 0);
    match binding_index(scope, name, 0) {
        Some(i) => {
            if other == name {
                lemma_binding_index_is(bound, name, 0, i);
            } else {
                match binding_index(scope, other, 0) {
                    Some(j) => {
                        lemma_binding_index_is(bound, other, 0, j);
                    },
                    None => {
                        lemma_binding_index_none(bound, other, 0);
                    },
                }
            }
        },
        None => {
            if other == name {
                lemma_binding_index_is(bound, name, 0, scope.len() as int);
            } else {
                match binding_index(scope, other, 0) {
                    Some(j) => {
                        lemma_binding_index_is(bound, other, 0, j);
                    },
                    None => {
                        lemma_binding_index_none(bound, other, 0);
                    },
                }
            }
        },
    }
}

/// What [`key_index`] finds is the first pair at or after `from` whose key is
/// equal to the key; it finds none only if there is none.
pub proof fn lemma_key_index(pairs: Seq<(ValueView, ValueView)>, key: ValueView, from: int)
    requires
        0 <= from,
    ensures
        match key_index(pairs, key, from) {
            Some(i) => from <= i < pairs.len() && raw_equal(pairs[i].0, key) && forall|j: int|
                from <= j < i ==> !raw_equal(pairs[j].0, key),
            None => forall|j: int| from <= j < pairs.len() ==> !raw_equal(pairs[j].0, key),
        },
    decreases pairs.len() - from,
{
    if from < pairs.len() && !raw_equal(pairs[from].0, key) {
        lemma_key_index(pairs, key, from + 1);
    }
}

/// The first pair with an equal key, found by its place.
pub proof fn lemma_key_index_is(
    pairs: Seq<(ValueView, ValueView)>,
    key: ValueView,
    from: int,
    at: int,
)
    requires
        0 <= from <= at < pairs.len(),
        raw_equal(pairs[at].0, key),
        forall|j: int| from <= j < at ==> !raw_equal(pairs[j].0, key),
    ensures
        key_index(pairs, key, from) == Some(at),
    decreases at - from,
{
    if from < at {
        lemma_key_index_is(pairs, key, from + 1, at);
    }
}

/// A key that is equal to itself, a number that is no NaN, a string, a
/// boolean or nil, finds what was entered under it.
pub proof fn lemma_get_after_set(
    pairs: Seq<(ValueView, ValueView)>,
    key: ValueView,
    value: ValueView,
)
    requires
        raw_equal(key, key),
    ensures
        table_get(table_set(pairs, key, value), key) == value,
{
    let entered = table_set(pairs, key, value);
    lemma_key_index(pairs, key, 0);
    match key_index(pairs, key, 0) {
        Some(i) => {
            lemma_key_index_is(entered, key, 0, i);
        },
        None => {
            lemma_key_index_is(entered, key, 0, pairs.len() as int);
        },
    }
}

/// A key that is not equal to itself, a table, a function or a NaN, is never
/// found again: every entry under it adds a pair, and a table holds nil under
/// it whatever was entered.
pub proof fn lemma_unequal_keys_are_lost(
    pairs: Seq<(ValueView, ValueView)>,
    key: ValueView,
    value: ValueView,
)
    requires
        !raw_equal(key, key),
    ensures
        table_set(pairs, key, value) == pairs.push((key, value)),
        table_get(pairs, key) == ValueView::Nil,
        table_get(table_set(pairs, key, value), key) == ValueView::Nil,
{
    lemma_key_index(pairs, key, 0);
    lemma_key_index(pairs.push((key, value)), key, 0);
    assert(forall|v: ValueView| !raw_equal(v, key));
}

/// The length of a table grows by one with every key that was not in it:
/// after one entry into an empty table it is one, whatever the key.
pub proof fn lemma_one_entry_has_length_one(key: ValueView, value: ValueView)
    ensures
        table_set(Seq::empty(), key, value).len() == 1,
        length_of(ValueView::Table(table_set(Seq::empty(), key, value))) == ValueView::Number(
            Number::spec_one(),
        ),
{
    crate::number::lemma_bits_of_zero_and_one();
    assert(key_index(Seq::empty(), key, 0) is None);
}

/// `break` has no effect: executing it puts nil on the stack and changes
/// nothing else. The tasks of the loop around it stay where they are, so the
/// rest of the body runs and the loop goes on.
pub proof fn lemma_break_is_inert(vm: VmView, reply: ReplyView)
    ensures
        vm.exec(StmtView::Break) == (vm.with_value(ValueView::Nil), StatusView::Running),
        vm.with_task(TaskView::Exec(StmtView::Break)).step(reply) == (
            vm.with_value(ValueView::Nil),
            StatusView::Running,
        ),
{
    let scheduled = vm.with_task(TaskView::Exec(StmtView::Break));
    assert(scheduled.tasks.drop_last() =~= vm.tasks);
    assert((VmView { tasks: scheduled.tasks.drop_last(), ..scheduled }) == vm);
}

/// `return` does not end anything either: it leaves the value of its first
/// expression, or nil, as the value of the statement, and the statements
/// behind it in the block run.
pub proof fn lemma_return_is_a_statement(vm: VmView, values: Seq<ExprView>)
    ensures
        vm.exec(StmtView::Return(None)) == (vm.with_value(ValueView::Nil), StatusView::Running),
        vm.exec(StmtView::Return(Some(values))).0.tasks == vm.tasks.push(
            TaskView::KeepFirst { count: values.len() },
        ).push(TaskView::EvalList { exprs: values, next: 0 }),
        vm.exec(StmtView::Return(Some(values))).0.frames == vm.frames,
{
}

/// A name that no open frame and no global binds is nil.
pub proof fn lemma_unbound_name_is_nil(vm: VmView, name: Seq<char>)
    requires
        frame_lookup(vm.frames, name) is None,
        lookup(vm.globals, name) is None,
    ensures
        vm.variable(name) == ValueView::Nil,
        vm.eval(ExprView::Identifier(name)) == (vm.with_value(ValueView::Nil), StatusView::Running),
{
}

/// Calling what is no function gives nil: the arguments, which have been
/// evaluated, are dropped, and nil is the value of the call. So it is with a
/// name that is not bound at all.
pub proof fn lemma_call_of_no_function(
    vm: VmView,
    name: Seq<char>,
    arguments: Seq<ExprView>,
    count: nat,
)
    requires
        !(vm.variable(name) is Function),
    ensures
        vm.eval(ExprView::FunctionCall { name, arguments }) == (
            vm.with_task(
                TaskView::Call { callee: vm.variable(name), count: arguments.len() },
            ).with_task(TaskView::EvalList { exprs: arguments, next: 0 }),
            StatusView::Running,
        ),
        vm.call(vm.variable(name), count) == (
            vm.dropped_values(count).with_value(ValueView::Nil),
            StatusView::Running,
        ),
{
}

/// A plain assignment writes the global table and no call frame, whatever
/// the frames bind; a local one writes the innermost frame and neither the
/// global table nor any other frame.
pub proof fn lemma_assignment_targets(vm: VmView, variables: Seq<Seq<char>>, count: nat)
    ensures
        vm.assign(variables, count, false).0.frames == vm.frames,
        vm.assign(variables, count, true).0.globals == vm.globals,
        vm.assign(variables, count, true).0.frames.len() == vm.frames.len(),
        forall|i: int|
            0 <= i < vm.frames.len() - 1 ==> vm.assign(variables, count, true).0.frames[i]
                == vm.frames[i],
{
}

/// A call of a user-defined function opens exactly one frame and schedules
/// its closing behind the body: whatever the body does, the frame is closed
/// when the body has run.
pub proof fn lemma_call_frames_are_paired(
    vm: VmView,
    parameters: Seq<Seq<char>>,
    body: Seq<StmtView>,
    closure: Seq<(Seq<char>, ValueView)>,
    count: nat,
    reply: ReplyView,
)
    ensures
        ({
            let callee = ValueView::Function(
                FunctionView::UserDefined { parameters, body, closure },
            );
            let called = vm.call(callee, count).0;
            &&& called.frames.len() == vm.frames.len() + 1
            &&& called.frames.drop_last() == vm.frames
            &&& called.tasks == vm.tasks.push(TaskView::PopFrame).push(
                TaskView::Block { stmts: body, next: 0 },
            )
            &&& called.globals == vm.globals
            &&& (VmView { frames: called.frames, ..vm }).with_task(TaskView::PopFrame).step(
                reply,
            ).0.frames == vm.frames
        }),
{
    let callee = ValueView::Function(FunctionView::UserDefined { parameters, body, closure });
    let called = vm.call(callee, count).0;
    assert(called.frames.drop_last() =~= vm.frames);
    let closing = (VmView { frames: called.frames, ..vm }).with_task(TaskView::PopFrame);
    assert(closing.tasks.drop_last() =~= vm.tasks);
}

impl VmView {
    /// Steps until the host is needed, the statements have run, a call frame
    /// is missing, or `limit` steps are done: the state then, and the status
    /// of the last step. `reply` goes to the first step.
    pub open spec fn run(self, reply: ReplyView, limit: nat) -> (VmView, StatusView)
        decreases limit,
    {
        if limit == 0 || self.frame_missing() {
            (self, StatusView::Running)
        } else {
            let (next, status) = self.step(reply);
            if status is Running {
                next.run(ReplyView::Nothing, (limit - 1) as nat)
            } else {
                (next, status)
            }
        }
    }

    /// The state after `count` steps that need no answer of the host.
    pub open spec fn after(self, count: nat) -> VmView
        decreases count,
    {
        if count == 0 {
            self
        } else {
            self.step(ReplyView::Nothing).0.after((count - 1) as nat)
        }
    }
}

/// Taking the next task off the control stack leaves the state in which it
/// was scheduled.
pub proof fn lemma_scheduled_task(vm: VmView, task: TaskView)
    ensures
        vm.with_task(task).tasks.last() == task,
        (VmView { tasks: vm.with_task(task).tasks.drop_last(), ..vm.with_task(task) }) == vm,
{
    assert(vm.with_task(task).tasks.drop_last() =~= vm.tasks);
}

/// Putting a value on the stack and taking it off again leaves the state as
/// it was.
pub proof fn lemma_pushed_value(vm: VmView, value: ValueView)
    ensures
        vm.with_value(value).top() == value,
        vm.with_value(value).dropped() == vm,
{
    assert(vm.with_value(value).stack.drop_last() =~= vm.stack);
}

/// A `while` loop does not end at a `break`. A loop whose condition holds and
/// whose body is a `break` is, seven steps later, where it was: about to run
/// again, with nothing changed. It never ends.
pub proof fn lemma_break_does_not_end_a_loop(vm: VmView, count: nat)
    ensures
        ({
            let endless = StmtView::While {
                condition: ExprView::Boolean(true),
                body: seq![StmtView::Break],
            };
            vm.with_task(TaskView::Exec(endless)).after(7 * count) == vm.with_task(
                TaskView::Exec(endless),
            )
        }),
    decreases count,
{
    let condition = ExprView::Boolean(true);
    let body = seq![StmtView::Break];
    let endless = StmtView::While { condition, body };
    let s0 = vm.with_task(TaskView::Exec(endless));
    if count > 0 {
        let r = ReplyView::Nothing;
        // the statement schedules the test of its condition
        lemma_scheduled_task(vm, TaskView::Exec(endless));
        let t1 = vm.with_task(TaskView::WhileTest { condition, body });
        let s1 = t1.with_task(TaskView::Eval(condition));
        assert(s0.step(r).0 == s1);
        // the condition is true
        lemma_scheduled_task(t1, TaskView::Eval(condition));
        let s2 = t1.with_value(ValueView::Boolean(true));
        assert(s1.step(r).0 == s2);
        // so the body is scheduled, and the loop behind it
        let v2 = vm.with_value(ValueView::Boolean(true));
        assert(s2 == v2.with_task(TaskView::WhileTest { condition, body }));
        lemma_scheduled_task(v2, TaskView::WhileTest { condition, body });
        lemma_pushed_value(vm, ValueView::Boolean(true));
        let t3 = s0.with_task(TaskView::Discard);
        let s3 = t3.with_task(TaskView::Block { stmts: body, next: 0 });
        assert(s2.step(r).0 == s3);
        // the block schedules the break
        lemma_scheduled_task(t3, TaskView::Block { stmts: body, next: 0 });
        let t4 = t3.with_task(TaskView::Block { stmts: body, next: 1 });
        let s4 = t4.with_task(TaskView::Exec(StmtView::Break));
        assert(s3.step(r).0 == s4);
        // the break leaves nil and nothing else
        lemma_break_is_inert(t4, r);
        let s5 = t4.with_value(ValueView::Nil);
        assert(s4.step(r).0 == s5);
        // the block is at its end
        let v5 = t3.with_value(ValueView::Nil);
        assert(s5 == v5.with_task(TaskView::Block { stmts: body, next: 1 }));
        lemma_scheduled_task(v5, TaskView::Block { stmts: body, next: 1 });
        assert(s5.step(r).0 == v5);
        // its value is dropped
        let v6 = s0.with_value(ValueView::Nil);
        assert(v5 == v6.with_task(TaskView::Discard));
        lemma_scheduled_task(v6, TaskView::Discard);
        lemma_pushed_value(s0, ValueView::Nil);
        assert(v5.step(r).0 == s0);
        // and the loop is where it was
        assert(s0.after(7) == s0) by {
            reveal_with_fuel(VmView::after, 8);
        }
        lemma_break_does_not_end_a_loop(vm, (count - 1) as nat);
        lemma_after_adds(s0, 7, (7 * (count - 1)) as nat);
    }
}

/// Steps add up.
pub proof fn lemma_after_adds(vm: VmView, first: nat, second: nat)
    ensures
        vm.after(first + second) == vm.after(first).after(second),
    decreases first,
{
    if first > 0 {
        lemma_after_adds(vm.step(ReplyView::Nothing).0, (first - 1) as nat, second);
    }
}

/// Calling a name that is bound to no function, with no arguments, gives nil
/// in three steps: nothing else changes.
pub proof fn lemma_call_of_an_unbound_name(vm: VmView, name: Seq<char>)
    requires
        !(vm.variable(name) is Function),
    ensures
        vm.with_task(
            TaskView::Eval(ExprView::FunctionCall { name, arguments: Seq::empty() }),
        ).after(3) == vm.with_value(ValueView::Nil),
{
    let r = ReplyView::Nothing;
    let arguments = Seq::<ExprView>::empty();
    let call = ExprView::FunctionCall { name, arguments };
    let callee = vm.variable(name);
    let s0 = vm.with_task(TaskView::Eval(call));
    lemma_scheduled_task(vm, TaskView::Eval(call));
    let t1 = vm.with_task(TaskView::Call { callee, count: 0 });
    let s1 = t1.with_task(TaskView::EvalList { exprs: arguments, next: 0 });
    assert(s0.step(r).0 == s1);
    lemma_scheduled_task(t1, TaskView::EvalList { exprs: arguments, next: 0 });
    assert(s1.step(r).0 == t1);
    lemma_scheduled_task(vm, TaskView::Call { callee, count: 0 });
    assert(vm.dropped_values(0) == vm) by {
        assert(vm.stack.subrange(0, vm.stack.len() as int) =~= vm.stack);
    }
    assert(t1.step(r).0 == vm.with_value(ValueView::Nil));
    assert(s0.after(3) == vm.with_value(ValueView::Nil)) by {
        reveal_with_fuel(VmView::after, 4);
    }
}

/// The operators of a chain are applied from the left. With `a`, `b` and `c`
/// bound to numbers, evaluating `a op b op' c` for two arithmetic operators
/// first asks the host for `a op b`, and with the answer `r` then asks for
/// `r op' c`: there is no precedence among operators.
pub proof fn lemma_operators_apply_from_the_left(
    vm: VmView,
    a: Seq<char>,
    first: BinaryOperator,
    b: Seq<char>,
    second: BinaryOperator,
    c: Seq<char>,
    r: Number,
)
    requires
        vm.variable(a) is Number,
        vm.variable(b) is Number,
        vm.variable(c) is Number,
        crate::value::is_arithmetic(first),
        crate::value::is_arithmetic(second),
    ensures
        ({
            let chain = ExprView::BinaryOp {
                left: Box::new(
                    ExprView::BinaryOp {
                        left: Box::new(ExprView::Identifier(a)),
                        operator: first,
                        right: Box::new(ExprView::Identifier(b)),
                    },
                ),
                operator: second,
                right: Box::new(ExprView::Identifier(c)),
            };
            let asked = vm.with_task(TaskView::Eval(chain)).after(4);
            let answered = asked.step(ReplyView::Nothing).0.step(ReplyView::Number(r)).0;
            &&& asked.step(ReplyView::Nothing).1 == StatusView::Waiting(
                RequestView::Arithmetic(
                    first,
                    vm.variable(a)->Number_0,
                    vm.variable(b)->Number_0,
                ),
            )
            &&& answered.after(1).step(ReplyView::Nothing).1 == StatusView::Waiting(
                RequestView::Arithmetic(second, r, vm.variable(c)->Number_0),
            )
        }),
{
    let nothing = ReplyView::Nothing;
    let x = vm.variable(a)->Number_0;
    let y = vm.variable(b)->Number_0;
    let z = vm.variable(c)->Number_0;
    let inner = ExprView::BinaryOp {
        left: Box::new(ExprView::Identifier(a)),
        operator: first,
        right: Box::new(ExprView::Identifier(b)),
    };
    let chain = ExprView::BinaryOp {
        left: Box::new(inner),
        operator: second,
        right: Box::new(ExprView::Identifier(c)),
    };
    let receive = TaskView::Receive {
        expect: Expect::Number,
        fallback: ValueView::Nil,
        slot: Slot::Push,
    };
    // the outer operator waits for both operands
    let s0 = vm.with_task(TaskView::Eval(chain));
    lemma_scheduled_task(vm, TaskView::Eval(chain));
    let t1 = vm.with_task(TaskView::Binary(second)).with_task(
        TaskView::Eval(ExprView::Identifier(c)),
    );
    let s1 = t1.with_task(TaskView::Eval(inner));
    assert(s0.step(nothing).0 == s1);
    // the inner operator waits for its operands
    lemma_scheduled_task(t1, TaskView::Eval(inner));
    let t2 = t1.with_task(TaskView::Binary(first));
    let u2 = t2.with_task(TaskView::Eval(ExprView::Identifier(b)));
    let s2 = u2.with_task(TaskView::Eval(ExprView::Identifier(a)));
    assert(s1.step(nothing).0 == s2);
    // a and b are read; reading changes neither frames nor globals
    lemma_scheduled_task(u2, TaskView::Eval(ExprView::Identifier(a)));
    assert(u2.variable(a) == vm.variable(a));
    let s3 = u2.with_value(ValueView::Number(x));
    assert(s2.step(nothing).0 == s3);
    let v3 = t2.with_value(ValueView::Number(x));
    assert(s3 == v3.with_task(TaskView::Eval(ExprView::Identifier(b))));
    lemma_scheduled_task(v3, TaskView::Eval(ExprView::Identifier(b)));
    assert(v3.variable(b) == vm.variable(b));
    let s4 = v3.with_value(ValueView::Number(y));
    assert(s3.step(nothing).0 == s4);
    assert(s0.after(4) == s4) by {
        reveal_with_fuel(VmView::after, 5);
    }
    // the inner operator asks the host
    let v4 = t1.with_value(ValueView::Number(x)).with_value(ValueView::Number(y));
    assert(s4 == v4.with_task(TaskView::Binary(first)));
    lemma_scheduled_task(v4, TaskView::Binary(first));
    lemma_pushed_value(t1.with_value(ValueView::Number(x)), ValueView::Number(y));
    lemma_pushed_value(t1, ValueView::Number(x));
    assert(binary_outcome(first, ValueView::Number(x), ValueView::Number(y))
        == OutcomeView::Arithmetic { operator: first, left: x, right: y });
    let s5 = t1.with_task(receive);
    assert(s4.step(nothing) == (
        s5,
        StatusView::Waiting(RequestView::Arithmetic(first, x, y)),
    ));
    // the answer is the left operand of the outer operator
    lemma_scheduled_task(t1, receive);
    let s6 = t1.with_value(ValueView::Number(r));
    assert(s5.step(ReplyView::Number(r)).0 == s6);
    // c is read
    let t6 = vm.with_task(TaskView::Binary(second)).with_value(ValueView::Number(r));
    assert(s6 == t6.with_task(TaskView::Eval(ExprView::Identifier(c))));
    lemma_scheduled_task(t6, TaskView::Eval(ExprView::Identifier(c)));
    assert(t6.variable(c) == vm.variable(c));
    let s7 = t6.with_value(ValueView::Number(z));
    assert(s6.step(nothing).0 == s7);
    assert(s6.after(1) == s7) by {
        reveal_with_fuel(VmView::after, 2);
    }
    // the outer operator asks the host
    let v7 = vm.with_value(ValueView::Number(r)).with_value(ValueView::Number(z));
    assert(s7 == v7.with_task(TaskView::Binary(second)));
    lemma_scheduled_task(v7, TaskView::Binary(second));
    lemma_pushed_value(vm.with_value(ValueView::Number(r)), ValueView::Number(z));
    lemma_pushed_value(vm, ValueView::Number(r));
    assert(binary_outcome(second, ValueView::Number(r), ValueView::Number(z))
        == OutcomeView::Arithmetic { operator: second, left: r, right: z });
    assert(s7.step(nothing).1 == StatusView::Waiting(RequestView::Arithmetic(second, r, z)));
}

/// The last place at or after `from` at which `name` stands in `names`.
pub open spec fn last_occurrence(names: Seq<Seq<char>>, name: Seq<char>, from: int) -> Option<int>
    decreases names.len() - from,
{
    if from < 0 || from >= names.len() {
        None
    } else {
        match last_occurrence(names, name, from + 1) {
            Some(i) => Some(i),
            None => if names[from] == name {
                Some(from)
            } else {
                None
            },
        }
    }
}

/// The value that stands at place `i` of a list of values, nil if the list
/// is too short.
pub open spec fn value_or_nil(values: Seq<ValueView>, i: int) -> ValueView {
    if 0 <= i < values.len() {
        values[i]
    } else {
        ValueView::Nil
    }
}

/// Binding a list of names to a list of values binds each name to the value
/// at its place. A name for which no value is left is bound to nil; values
/// for which no name is left are dropped; of a name that stands twice the
/// last place counts; every other name keeps its binding. So it is with the
/// targets of an assignment and with the parameters of a call.
pub proof fn lemma_bind_all(
    scope: Seq<(Seq<char>, ValueView)>,
    names: Seq<Seq<char>>,
    values: Seq<ValueView>,
    from: int,
    name: Seq<char>,
)
    requires
        0 <= from,
    ensures
        lookup(bind_all(scope, names, values, from), name) == match last_occurrence(
            names,
            name,
            from,
        ) {
            Some(i) => Some(value_or_nil(values, i)),
            None => lookup(scope, name),
        },
    decreases names.len() - from,
{
    if from < names.len() {
        let bound = bind(scope, names[from], value_or_nil(values, from));
        lemma_bind_all(bound, names, values, from + 1, name);
        lemma_lookup_after_bind(scope, names[from], value_or_nil(values, from), name);
    }
}

/// The arguments of a call reach the parameters by position: with fewer
/// arguments than parameters the parameters that are left over are nil.
pub proof fn lemma_missing_arguments_are_nil(parameter: Seq<char>)
    ensures
        lookup(bind_all(Seq::empty(), seq![parameter], Seq::empty(), 0), parameter) == Some(
            ValueView::Nil,
        ),
{
    lemma_bind_all(Seq::empty(), seq![parameter], Seq::empty(), 0, parameter);
    assert(last_occurrence(seq![parameter], parameter, 1) is None);
    assert(last_occurrence(seq![parameter], parameter, 0) == Some(0int));
}

/// A binding in the innermost frame hides those of the frames around it and
/// of the global table.
pub proof fn lemma_innermost_binding_wins(vm: VmView, name: Seq<char>, value: ValueView)
    requires
        vm.frames.len() > 0,
        lookup(vm.frames.last(), name) == Some(value),
    ensures
        vm.variable(name) == value,
{
}

/// Reads prefer locals, writes pass them by: while a frame binds a name, a
/// plain assignment to that name changes the global table and not what
/// reading the name gives.
pub proof fn lemma_reads_prefer_locals(
    vm: VmView,
    name: Seq<char>,
    local: ValueView,
    assigned: ValueView,
)
    requires
        frame_lookup(vm.frames, name) == Some(local),
    ensures
        vm.with_global(name, assigned).variable(name) == local,
        lookup(vm.with_global(name, assigned).globals, name) == Some(assigned),
        vm.with_global(name, assigned).frames == vm.frames,
{
    lemma_lookup_after_bind(vm.globals, name, assigned, name);
}

/// Once no frame binds a name, reading it gives what was last assigned to
/// it.
pub proof fn lemma_globals_are_read_back(vm: VmView, name: Seq<char>, assigned: ValueView)
    requires
        frame_lookup(vm.frames, name) is None,
    ensures
        vm.with_global(name, assigned).variable(name) == assigned,
{
    lemma_lookup_after_bind(vm.globals, name, assigned, name);
}

} // verus!
