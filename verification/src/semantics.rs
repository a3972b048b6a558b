//! What programs mean, and the proof that the evaluator does what they mean.
//!
//! [`HostModel::exec`] and [`HostModel::eval`] give the meaning of statements
//! and expressions by recursion over the syntax tree, relative to a host that
//! reads, writes and computes numbers. [`lemma_execute`] proves that the steps
//! of the evaluator, with that host answering, end in the world and with the
//! value that the program means.

use crate::ast::{BinaryOperator, ExprView, StmtView, TableFieldView, UnaryOperator};
use crate::number::{integer_bits, Number};
use crate::value::{
    coercion, compare, length_of, name_of_type, raw_equal, rendering, truthy, Builtin,
    CoercionView, FunctionView, OutcomeView, RenderingView, ValueView,
};
use crate::vm::{
    bind, bind_all, binary_outcome, for_continues, frame_lookup, lemma_pushed_value, loaded,
    lemma_scheduled_task, lookup, next_position, separator, table_get, table_set, unary_outcome,
    Expect, PendingKeyView, ReplyView, RequestView, Slot, StatusView, TaskView, VmView,
};
use vstd::prelude::*;

verus! {

/// An evaluator at work with its host: the state of the evaluator, the
/// answer that its next step takes, and the lines printed so far.
pub struct Run {
    pub vm: VmView,
    pub reply: ReplyView,
    pub lines: Seq<Seq<char>>,
}

/// An evaluator that is about to take a step that needs no answer.
pub open spec fn ready(vm: VmView, lines: Seq<Seq<char>>) -> Run {
    Run { vm, reply: ReplyView::Nothing, lines }
}

/// A host, as far as the values of expressions depend on it: how it reads a
/// text as a double, how it writes a double as text, and what it computes.
pub struct HostModel {
    pub parse: spec_fn(Seq<char>) -> Option<Number>,
    pub format: spec_fn(Number) -> Seq<char>,
    pub compute: spec_fn(BinaryOperator, Number, Number) -> Number,
}

impl HostModel {
    /// What the host answers to a request.
    pub open spec fn answer(self, request: RequestView) -> ReplyView {
        match request {
            RequestView::Parse(text) => match (self.parse)(text) {
                Some(n) => ReplyView::Number(n),
                None => ReplyView::Nothing,
            },
            RequestView::Format(n) => ReplyView::Text((self.format)(n)),
            RequestView::Arithmetic(operator, left, right) => ReplyView::Number(
                (self.compute)(operator, left, right),
            ),
            RequestView::Print(_) => ReplyView::Nothing,
        }
    }

    /// The numeric value of a value: a number is itself, true is 1 and false
    /// is 0, a string is what the host reads from it, and nothing else has
    /// one.
    pub open spec fn numeric(self, value: ValueView) -> Option<Number> {
        match coercion(value) {
            CoercionView::Number(n) => Some(n),
            CoercionView::Text(text) => (self.parse)(text),
            CoercionView::Absent => None,
        }
    }

    /// The text of a value: that of a number is what the host writes for it.
    pub open spec fn textual(self, value: ValueView) -> Seq<char> {
        match rendering(value) {
            RenderingView::Text(text) => text,
            RenderingView::Number(n) => (self.format)(n),
        }
    }

    /// The value of a numeric literal: what the host reads from its text.
    pub open spec fn literal(self, text: Seq<char>) -> ValueView {
        match (self.parse)(text) {
            Some(n) => ValueView::Number(n),
            None => ValueView::Nil,
        }
    }

    /// The value of a unary operator on a value.
    pub open spec fn unary(self, operator: UnaryOperator, value: ValueView) -> ValueView {
        match operator {
            UnaryOperator::Not => ValueView::Boolean(!truthy(value)),
            UnaryOperator::Length => length_of(value),
            UnaryOperator::Minus => match self.numeric(value) {
                Some(n) => ValueView::Number(n.negated()),
                None => ValueView::Nil,
            },
        }
    }

    /// The value of a binary operator on two values. Arithmetic gives nil
    /// and a comparison gives false unless both operands have numeric values;
    /// concatenation joins the texts; equality coerces nothing; `and` and `or`
    /// give booleans.
    pub open spec fn binary(self, operator: BinaryOperator, left: ValueView, right: ValueView)
        -> ValueView {
        match operator {
            BinaryOperator::Add | BinaryOperator::Subtract | BinaryOperator::Multiply
            | BinaryOperator::Divide | BinaryOperator::Modulo | BinaryOperator::Power => match (
                self.numeric(left),
                self.numeric(right),
            ) {
                (Some(a), Some(b)) => ValueView::Number((self.compute)(operator, a, b)),
                _ => ValueView::Nil,
            },
            BinaryOperator::LessThan | BinaryOperator::LessEqual | BinaryOperator::GreaterThan
            | BinaryOperator::GreaterEqual => match (self.numeric(left), self.numeric(right)) {
                (Some(a), Some(b)) => ValueView::Boolean(compare(operator, a, b)),
                _ => ValueView::Boolean(false),
            },
            BinaryOperator::Concat => ValueView::String(self.textual(left) + self.textual(right)),
            BinaryOperator::Equal => ValueView::Boolean(raw_equal(left, right)),
            BinaryOperator::NotEqual => ValueView::Boolean(!raw_equal(left, right)),
            BinaryOperator::And => ValueView::Boolean(truthy(left) && truthy(right)),
            BinaryOperator::Or => ValueView::Boolean(truthy(left) || truthy(right)),
        }
    }

    /// One step of the evaluator and the host's answer to what it asks, if it
    /// asks. A line that the evaluator asks to be printed is printed. An
    /// evaluator that misses a call frame cannot step: it stays as it is.
    pub open spec fn step(self, run: Run) -> Run {
        let (next, status) = run.vm.step(run.reply);
        if run.vm.frame_missing() {
            run
        } else {
            match status {
                StatusView::Waiting(request) => Run {
                    vm: next,
                    reply: self.answer(request),
                    lines: match request {
                        RequestView::Print(line) => run.lines.push(line),
                        _ => run.lines,
                    },
                },
                _ => Run { vm: next, reply: ReplyView::Nothing, lines: run.lines },
            }
        }
    }

    /// `count` steps of the evaluator with the host answering.
    pub open spec fn steps(self, run: Run, count: nat) -> Run
        decreases count,
    {
        if count == 0 {
            run
        } else {
            self.steps(self.step(run), (count - 1) as nat)
        }
    }

    /// The value of an expression that holds no call and builds no table, in
    /// a state of the evaluator: the direct reading of the expression, from
    /// its leaves up.
    pub open spec fn value_of(self, vm: VmView, expr: ExprView) -> ValueView
        decreases expr,
    {
        match expr {
            ExprView::Number(text) => self.literal(text),
            ExprView::String(text) => ValueView::String(text),
            ExprView::Boolean(b) => ValueView::Boolean(b),
            ExprView::Nil => ValueView::Nil,
            ExprView::Identifier(name) => vm.variable(name),
            ExprView::UnaryOp { operator, operand } => self.unary(
                operator,
                self.value_of(vm, *operand),
            ),
            ExprView::BinaryOp { left, operator, right } => self.binary(
                operator,
                self.value_of(vm, *left),
                self.value_of(vm, *right),
            ),
            ExprView::TableAccess { table, key } => match self.value_of(vm, *table) {
                ValueView::Table(pairs) => table_get(pairs, self.value_of(vm, *key)),
                _ => ValueView::Nil,
            },
            _ => ValueView::Nil,
        }
    }
}

/// Whether an expression holds no call and builds no table.
pub open spec fn is_plain(expr: ExprView) -> bool
    decreases expr,
{
    match expr {
        ExprView::UnaryOp { operand, .. } => is_plain(*operand),
        ExprView::BinaryOp { left, right, .. } => is_plain(*left) && is_plain(*right),
        ExprView::TableAccess { table, key } => is_plain(*table) && is_plain(*key),
        ExprView::FunctionCall { .. } => false,
        ExprView::TableConstructor { .. } => false,
        _ => true,
    }
}

/// Steps add up.
pub proof fn lemma_steps_add(host: HostModel, run: Run, first: nat, second: nat)
    ensures
        host.steps(run, first + second) == host.steps(host.steps(run, first), second),
    decreases first,
{
    if first > 0 {
        lemma_steps_add(host, host.step(run), (first - 1) as nat, second);
    }
}

/// One step, by itself.
pub proof fn lemma_one_step(host: HostModel, run: Run)
    ensures
        host.steps(run, 1) == host.step(run),
{
    reveal_with_fuel(HostModel::steps, 2);
}

/// A step that needs no answer and asks nothing.
pub proof fn lemma_quiet_step(host: HostModel, vm: VmView, lines: Seq<Seq<char>>, next: VmView)
    requires
        !vm.frame_missing(),
        vm.step(ReplyView::Nothing) == (next, StatusView::Running),
    ensures
        host.step(ready(vm, lines)) == ready(next, lines),
        host.steps(ready(vm, lines), 1) == ready(next, lines),
{
    lemma_one_step(host, ready(vm, lines));
}

/// A step that asks the host, and the step that takes the answer: together
/// they need no answer and leave none.
pub proof fn lemma_asking_steps(
    host: HostModel,
    vm: VmView,
    lines: Seq<Seq<char>>,
    waiting: VmView,
    request: RequestView,
    next: VmView,
)
    requires
        !(request is Print),
        !vm.frame_missing(),
        !waiting.frame_missing(),
        vm.step(ReplyView::Nothing) == (waiting, StatusView::Waiting(request)),
        waiting.step(host.answer(request)) == (next, StatusView::Running),
    ensures
        host.steps(ready(vm, lines), 2) == ready(next, lines),
{
    reveal_with_fuel(HostModel::steps, 3);
}

/// How many operands of an operation the host has to read or write before
/// the operation can be done.
pub open spec fn pending(outcome: OutcomeView) -> nat {
    match outcome {
        OutcomeView::Parse { operand, .. } => if operand == 0 {
            2
        } else {
            1
        },
        OutcomeView::Format { operand, .. } => if operand == 0 {
            2
        } else {
            1
        },
        _ => 0,
    }
}

/// Applying a unary operator to the value on top of the stack puts the value
/// of the operator in its place, the host reading the operand where it is a
/// string; nothing else changes.
pub proof fn lemma_unary(
    host: HostModel,
    vm: VmView,
    lines: Seq<Seq<char>>,
    operator: UnaryOperator,
    value: ValueView,
) -> (count: nat)
    ensures
        host.steps(ready(vm.with_value(value).with_task(TaskView::Unary(operator)), lines), count)
            == ready(vm.with_value(host.unary(operator, value)), lines),
{
    let task = TaskView::Unary(operator);
    let nothing = ReplyView::Nothing;
    let operand = vm.with_value(value);
    let start = operand.with_task(task);
    let result = vm.with_value(host.unary(operator, value));
    lemma_scheduled_task(operand, task);
    lemma_pushed_value(vm, value);
    match unary_outcome(operator, value) {
        OutcomeView::Parse { operand: _, text } => {
            // the operand is a string: the host reads it
            let receive = TaskView::Receive {
                expect: Expect::Number,
                fallback: ValueView::Nil,
                slot: Slot::Replace(0),
            };
            let waiting = start.with_task(receive);
            assert(vm.stack + seq![value] =~= operand.stack);
            // the number it read, or nil, takes the place of the string
            lemma_scheduled_task(start, receive);
            let read = host.literal(text);
            let replaced = vm.with_value(read).with_task(task);
            assert(start.with_replaced(0, read) == replaced) by {
                assert(start.stack.update(start.stack.len() - 1, read) =~= vm.stack.push(read));
            }
            lemma_asking_steps(host, start, lines, waiting, RequestView::Parse(text), replaced);
            // and the operator is applied to that
            lemma_scheduled_task(vm.with_value(read), task);
            lemma_pushed_value(vm, read);
            lemma_quiet_step(host, replaced, lines, result);
            lemma_steps_add(host, ready(start, lines), 2, 1);
            3
        },
        _ => {
            lemma_quiet_step(host, start, lines, result);
            1
        },
    }
}

/// The task that takes the host's answer for an operand of a binary
/// operator.
pub open spec fn operand_receiver(expect: Expect, fallback: ValueView, operand: usize) -> TaskView {
    TaskView::Receive {
        expect,
        fallback,
        slot: Slot::Replace(
            if operand == 0 {
                1
            } else {
                0
            },
        ),
    }
}

/// Applying a binary operator to the two values on top of the stack puts the
/// value of the operator in their place, the host reading or writing the
/// operands where that is needed, the left one first, and computing what is
/// to be computed; nothing else changes.
pub proof fn lemma_binary(
    host: HostModel,
    vm: VmView,
    lines: Seq<Seq<char>>,
    operator: BinaryOperator,
    left: ValueView,
    right: ValueView,
) -> (count: nat)
    ensures
        host.steps(
            ready(
                vm.with_value(left).with_value(right).with_task(TaskView::Binary(operator)),
                lines,
            ),
            count,
        ) == ready(vm.with_value(host.binary(operator, left, right)), lines),
    decreases pending(binary_outcome(operator, left, right)),
{
    let task = TaskView::Binary(operator);
    let nothing = ReplyView::Nothing;
    let one = vm.with_value(left);
    let both = one.with_value(right);
    let start = both.with_task(task);
    let result = vm.with_value(host.binary(operator, left, right));
    lemma_scheduled_task(both, task);
    lemma_pushed_value(one, right);
    lemma_pushed_value(vm, left);
    assert(vm.stack + seq![left, right] =~= both.stack);
    match binary_outcome(operator, left, right) {
        OutcomeView::Done(value) => {
            lemma_quiet_step(host, start, lines, result);
            1
        },
        OutcomeView::Arithmetic { operator: asked, left: a, right: b } => {
            let receive = TaskView::Receive {
                expect: Expect::Number,
                fallback: ValueView::Nil,
                slot: Slot::Push,
            };
            let waiting = vm.with_task(receive);
            lemma_scheduled_task(vm, receive);
            lemma_asking_steps(
                host,
                start,
                lines,
                waiting,
                RequestView::Arithmetic(asked, a, b),
                result,
            );
            2
        },
        OutcomeView::Parse { operand, text } => {
            let receive = operand_receiver(Expect::Number, ValueView::Nil, operand);
            let waiting = start.with_task(receive);
            lemma_scheduled_task(start, receive);
            let read = host.literal(text);
            let (new_left, new_right) = if operand == 0 {
                (read, right)
            } else {
                (left, read)
            };
            let replaced = vm.with_value(new_left).with_value(new_right).with_task(task);
            assert(replaced.stack =~= if operand == 0 {
                start.stack.update(start.stack.len() - 2, read)
            } else {
                start.stack.update(start.stack.len() - 1, read)
            });
            lemma_asking_steps(host, start, lines, waiting, RequestView::Parse(text), replaced);
            assert(host.numeric(new_left) == host.numeric(left));
            assert(host.numeric(new_right) == host.numeric(right));
            assert(host.binary(operator, new_left, new_right) == host.binary(
                operator,
                left,
                right,
            ));
            let rest = lemma_binary(host, vm, lines, operator, new_left, new_right);
            lemma_steps_add(host, ready(start, lines), 2, rest);
            rest + 2
        },
        OutcomeView::Format { operand, number } => {
            let receive = operand_receiver(
                Expect::Text,
                ValueView::String(Seq::empty()),
                operand,
            );
            let waiting = start.with_task(receive);
            lemma_scheduled_task(start, receive);
            let written = ValueView::String((host.format)(number));
            let (new_left, new_right) = if operand == 0 {
                (written, right)
            } else {
                (left, written)
            };
            let replaced = vm.with_value(new_left).with_value(new_right).with_task(task);
            assert(replaced.stack =~= if operand == 0 {
                start.stack.update(start.stack.len() - 2, written)
            } else {
                start.stack.update(start.stack.len() - 1, written)
            });
            lemma_asking_steps(host, start, lines, waiting, RequestView::Format(number), replaced);
            assert(host.textual(new_left) == host.textual(left));
            assert(host.textual(new_right) == host.textual(right));
            assert(host.binary(operator, new_left, new_right) == host.binary(
                operator,
                left,
                right,
            ));
            let rest = lemma_binary(host, vm, lines, operator, new_left, new_right);
            lemma_steps_add(host, ready(start, lines), 2, rest);
            rest + 2
        },
    }
}

/// Evaluating a numeric literal asks the host to read it and puts what it
/// read on the stack.
pub proof fn lemma_literal_value(host: HostModel, vm: VmView, lines: Seq<Seq<char>>, text: Seq<char>)
    ensures
        host.steps(ready(vm.with_task(TaskView::Eval(ExprView::Number(text))), lines), 2) == ready(
            vm.with_value(host.literal(text)),
            lines,
        ),
{
    let expr = ExprView::Number(text);
    let receive = TaskView::Receive {
        expect: Expect::Number,
        fallback: ValueView::Nil,
        slot: Slot::Push,
    };
    lemma_scheduled_task(vm, TaskView::Eval(expr));
    lemma_scheduled_task(vm, receive);
    lemma_asking_steps(
        host,
        vm.with_task(TaskView::Eval(expr)),
        lines,
        vm.with_task(receive),
        RequestView::Parse(text),
        vm.with_value(host.literal(text)),
    );
}

/// Looking a key up in a table: the key lies on top of the stack, the table
/// below it.
pub proof fn lemma_index(
    host: HostModel,
    vm: VmView,
    lines: Seq<Seq<char>>,
    table: ValueView,
    key: ValueView,
)
    ensures
        host.steps(
            ready(vm.with_value(table).with_value(key).with_task(TaskView::Index), lines),
            1,
        ) == ready(
            vm.with_value(
                match table {
                    ValueView::Table(pairs) => table_get(pairs, key),
                    _ => ValueView::Nil,
                },
            ),
            lines,
        ),
{
    let both = vm.with_value(table).with_value(key);
    lemma_scheduled_task(both, TaskView::Index);
    lemma_pushed_value(vm.with_value(table), key);
    lemma_pushed_value(vm, table);
    let result = vm.with_value(
        match table {
            ValueView::Table(pairs) => table_get(pairs, key),
            _ => ValueView::Nil,
        },
    );
    lemma_quiet_step(host, both.with_task(TaskView::Index), lines, result);
}

/// Evaluating an expression that holds no call and builds no table puts its
/// value on the stack and changes nothing else: not the global table, not
/// the call frames, not what is left to do, and nothing is printed. The
/// value is the direct reading of the expression: a name is looked up in the
/// frames and then among the globals, and the operators are applied to the
/// values of their operands.
pub proof fn lemma_value(host: HostModel, vm: VmView, lines: Seq<Seq<char>>, expr: ExprView) -> (count:
    nat)
    requires
        is_plain(expr),
    ensures
        host.steps(ready(vm.with_task(TaskView::Eval(expr)), lines), count) == ready(
            vm.with_value(host.value_of(vm, expr)),
            lines,
        ),
    decreases expr,
{
    let start = vm.with_task(TaskView::Eval(expr));
    let result = vm.with_value(host.value_of(vm, expr));
    lemma_scheduled_task(vm, TaskView::Eval(expr));
    match expr {
        ExprView::Number(text) => {
            lemma_literal_value(host, vm, lines, text);
            2
        },
        ExprView::UnaryOp { operator, operand } => {
            let operand = *operand;
            let waiting = vm.with_task(TaskView::Unary(operator));
            let scheduled = waiting.with_task(TaskView::Eval(operand));
            lemma_quiet_step(host, start, lines, scheduled);
            let first = lemma_value(host, waiting, lines, operand);
            let value = host.value_of(vm, operand);
            lemma_value_depends_on_bindings(host, waiting, vm, operand);
            assert(waiting.with_value(value) == vm.with_value(value).with_task(
                TaskView::Unary(operator),
            ));
            let second = lemma_unary(host, vm, lines, operator, value);
            lemma_steps_add(host, ready(scheduled, lines), first, second);
            lemma_steps_add(host, ready(start, lines), 1, first + second);
            first + second + 1
        },
        ExprView::BinaryOp { left, operator, right } => {
            let left = *left;
            let right = *right;
            let task = TaskView::Binary(operator);
            let waiting = vm.with_task(task);
            let for_right = waiting.with_task(TaskView::Eval(right));
            let scheduled = for_right.with_task(TaskView::Eval(left));
            lemma_quiet_step(host, start, lines, scheduled);
            // the left operand
            let first = lemma_value(host, for_right, lines, left);
            let l = host.value_of(vm, left);
            lemma_value_depends_on_bindings(host, for_right, vm, left);
            let with_left = waiting.with_value(l);
            assert(for_right.with_value(l) == with_left.with_task(TaskView::Eval(right)));
            // the right operand
            let second = lemma_value(host, with_left, lines, right);
            let r = host.value_of(vm, right);
            lemma_value_depends_on_bindings(host, with_left, vm, right);
            assert(with_left.with_value(r) == vm.with_value(l).with_value(r).with_task(task));
            // the operator
            let third = lemma_binary(host, vm, lines, operator, l, r);
            lemma_steps_add(host, ready(scheduled, lines), first, second);
            lemma_steps_add(host, ready(scheduled, lines), first + second, third);
            lemma_steps_add(host, ready(start, lines), 1, first + second + third);
            first + second + third + 1
        },
        ExprView::TableAccess { table, key } => {
            let table = *table;
            let key = *key;
            let waiting = vm.with_task(TaskView::Index);
            let for_key = waiting.with_task(TaskView::Eval(key));
            let scheduled = for_key.with_task(TaskView::Eval(table));
            lemma_quiet_step(host, start, lines, scheduled);
            // the table
            let first = lemma_value(host, for_key, lines, table);
            let t = host.value_of(vm, table);
            lemma_value_depends_on_bindings(host, for_key, vm, table);
            let with_table = waiting.with_value(t);
            assert(for_key.with_value(t) == with_table.with_task(TaskView::Eval(key)));
            // the key
            let second = lemma_value(host, with_table, lines, key);
            let k = host.value_of(vm, key);
            lemma_value_depends_on_bindings(host, with_table, vm, key);
            assert(with_table.with_value(k) == vm.with_value(t).with_value(k).with_task(
                TaskView::Index,
            ));
            // the lookup
            lemma_index(host, vm, lines, t, k);
            lemma_steps_add(host, ready(scheduled, lines), first, second);
            lemma_steps_add(host, ready(scheduled, lines), first + second, 1);
            lemma_steps_add(host, ready(start, lines), 1, first + second + 1);
            first + second + 2
        },
        _ => {
            lemma_quiet_step(host, start, lines, result);
            1
        },
    }
}

/// The value of an expression depends on the state of the evaluator through
/// the call frames and the global table only.
pub proof fn lemma_value_depends_on_bindings(
    host: HostModel,
    vm: VmView,
    other: VmView,
    expr: ExprView,
)
    requires
        vm.frames == other.frames,
        vm.globals == other.globals,
    ensures
        host.value_of(vm, expr) == host.value_of(other, expr),
    decreases expr,
{
    match expr {
        ExprView::UnaryOp { operator, operand } => {
            lemma_value_depends_on_bindings(host, vm, other, *operand);
        },
        ExprView::BinaryOp { left, operator, right } => {
            lemma_value_depends_on_bindings(host, vm, other, *left);
            lemma_value_depends_on_bindings(host, vm, other, *right);
        },
        ExprView::TableAccess { table, key } => {
            lemma_value_depends_on_bindings(host, vm, other, *table);
            lemma_value_depends_on_bindings(host, vm, other, *key);
        },
        _ => {},
    }
}

/// What a program can change: the global table, the call frames (innermost
/// last) and the lines printed.
pub struct World {
    pub globals: Seq<(Seq<char>, ValueView)>,
    pub frames: Seq<Seq<(Seq<char>, ValueView)>>,
    pub lines: Seq<Seq<char>>,
}

impl World {
    /// The value of a variable: that of the innermost frame that binds the
    /// name, else that of the global table, else nil.
    pub open spec fn variable(self, name: Seq<char>) -> ValueView {
        match frame_lookup(self.frames, name) {
            Some(value) => value,
            None => match lookup(self.globals, name) {
                Some(value) => value,
                None => ValueView::Nil,
            },
        }
    }

    /// With the innermost frame replaced by `locals`.
    pub open spec fn with_locals(self, locals: Seq<(Seq<char>, ValueView)>) -> World {
        World { frames: self.frames.update(self.frames.len() - 1, locals), ..self }
    }

    /// With a line printed.
    pub open spec fn with_line(self, line: Seq<char>) -> World {
        World { lines: self.lines.push(line), ..self }
    }
}

impl VmView {
    /// What a program can change, as the evaluator holds it.
    pub open spec fn world(self, lines: Seq<Seq<char>>) -> World {
        World { globals: self.globals, frames: self.frames, lines }
    }

    /// The evaluator with the global table and the call frames of `world`.
    pub open spec fn in_world(self, world: World) -> VmView {
        VmView { globals: world.globals, frames: world.frames, ..self }
    }
}

/// The key that a field of a table constructor enters its value under, in a
/// table that holds `pairs`.
pub open spec fn field_key(field: TableFieldView, pairs: Seq<(ValueView, ValueView)>) -> ValueView {
    match field {
        TableFieldView::Value(_) => ValueView::Number(
            Number { bits: integer_bits(next_position(pairs.len())) as u64 },
        ),
        TableFieldView::KeyValue(name, _) => ValueView::String(name),
    }
}

/// The expression of a field of a table constructor.
pub open spec fn field_expr(field: TableFieldView) -> ExprView {
    match field {
        TableFieldView::Value(e) => e,
        TableFieldView::KeyValue(_, e) => e,
    }
}

/// The size of an expression: the number of its nodes.
pub open spec fn expr_size(expr: ExprView) -> nat
    decreases expr,
{
    match expr {
        ExprView::UnaryOp { operand, .. } => 1 + expr_size(*operand),
        ExprView::BinaryOp { left, right, .. } => 1 + expr_size(*left) + expr_size(*right),
        ExprView::FunctionCall { arguments, .. } => 1 + exprs_size(arguments, 0),
        ExprView::TableAccess { table, key } => 1 + expr_size(*table) + expr_size(*key),
        ExprView::TableConstructor { fields } => 1 + fields_size(fields, 0),
        _ => 1,
    }
}

/// The size of the expressions of a list from `from` on.
pub open spec fn exprs_size(exprs: Seq<ExprView>, from: nat) -> nat
    decreases exprs, exprs.len() - from,
{
    if from >= exprs.len() {
        0
    } else {
        1 + expr_size(exprs[from as int]) + exprs_size(exprs, from + 1)
    }
}

/// The size of the fields of a table constructor from `from` on.
pub open spec fn fields_size(fields: Seq<TableFieldView>, from: nat) -> nat
    decreases fields, fields.len() - from,
{
    if from >= fields.len() {
        0
    } else {
        1 + (match fields[from as int] {
            TableFieldView::Value(e) => expr_size(e),
            TableFieldView::KeyValue(_, e) => expr_size(e),
        }) + fields_size(fields, from + 1)
    }
}

/// The size of a statement: the number of its nodes.
pub open spec fn stmt_size(stmt: StmtView) -> nat
    decreases stmt,
{
    match stmt {
        StmtView::Expr(e) => 1 + expr_size(e),
        StmtView::Assignment { values, .. } => 1 + exprs_size(values, 0),
        StmtView::LocalAssignment { values, .. } => 1 + exprs_size(values, 0),
        StmtView::If { condition, then_block, else_if_blocks, else_block } => 2 + expr_size(
            condition,
        ) + stmts_size(then_block, 0) + branches_size(else_if_blocks, 0) + (match else_block {
            Some(block) => stmts_size(block, 0),
            None => 0,
        }),
        StmtView::While { condition, body } => 1 + expr_size(condition) + stmts_size(body, 0),
        StmtView::Repeat { body, condition } => 1 + stmts_size(body, 0) + expr_size(condition),
        StmtView::For { start, end, step, body, .. } => 2 + expr_size(start) + expr_size(end) + (
        match step {
            Some(e) => expr_size(e),
            None => 0,
        }) + stmts_size(body, 0),
        StmtView::Return(Some(values)) => 1 + exprs_size(values, 0),
        _ => 1,
    }
}

/// The size of the statements of a block from `from` on.
pub open spec fn stmts_size(stmts: Seq<StmtView>, from: nat) -> nat
    decreases stmts, stmts.len() - from,
{
    if from >= stmts.len() {
        0
    } else {
        1 + stmt_size(stmts[from as int]) + stmts_size(stmts, from + 1)
    }
}

/// The size of the `elseif` branches of a conditional from `from` on.
pub open spec fn branches_size(branches: Seq<(ExprView, Seq<StmtView>)>, from: nat) -> nat
    decreases branches, branches.len() - from,
{
    if from >= branches.len() {
        0
    } else {
        1 + expr_size(branches[from as int].0) + stmts_size(branches[from as int].1, 0)
            + branches_size(branches, from + 1)
    }
}

/// The size of a block that may be absent.
pub open spec fn block_size(block: Option<Seq<StmtView>>) -> nat {
    match block {
        Some(stmts) => stmts_size(stmts, 0),
        None => 0,
    }
}

/// The size of the body of a function, plus one; zero for every other value.
pub open spec fn callee_size(callee: ValueView) -> nat {
    match callee {
        ValueView::Function(FunctionView::UserDefined { body, .. }) => stmts_size(body, 0) + 1,
        _ => 0,
    }
}

impl HostModel {
    /// The number that a bound of a numeric `for` loop stands for: its
    /// numeric value, or `default` if it has none.
    pub open spec fn bound(self, value: ValueView, default: Number) -> Number {
        match self.numeric(value) {
            Some(n) => n,
            None => default,
        }
    }

    /// The line that `print` writes for the arguments from `from` on, behind
    /// `line`: their texts, a tab before each but the first.
    pub open spec fn print_text(self, args: Seq<ValueView>, from: nat, line: Seq<char>) -> Seq<char>
        decreases args.len() - from,
    {
        if from >= args.len() {
            line
        } else {
            self.print_text(
                args,
                from + 1,
                line + separator(from) + self.textual(args[from as int]),
            )
        }
    }

    /// What a builtin does and gives.
    pub open spec fn builtin(self, world: World, builtin: Builtin, args: Seq<ValueView>) -> (
        World,
        ValueView,
    ) {
        match builtin {
            Builtin::Print => (
                world.with_line(self.print_text(args, 0, Seq::empty())),
                ValueView::Nil,
            ),
            Builtin::Type => (
                world,
                if args.len() == 1 {
                    ValueView::String(name_of_type(args[0]))
                } else {
                    ValueView::Nil
                },
            ),
            Builtin::ToNumber => (
                world,
                if args.len() == 0 {
                    ValueView::Nil
                } else {
                    match self.numeric(args[0]) {
                        Some(n) => ValueView::Number(n),
                        None => ValueView::Nil,
                    }
                },
            ),
            Builtin::ToString => (
                world,
                if args.len() == 0 {
                    ValueView::String(Seq::empty())
                } else {
                    ValueView::String(self.textual(args[0]))
                },
            ),
        }
    }

    // The meaning of programs, read off the syntax tree. Every function
    // below gives the world that a piece of program leaves and the value it
    // has, or `None` where it asks for a call frame and none is open, or
    // where `fuel` does not suffice: every call and every turn of a loop
    // takes one unit of fuel.
    /// The meaning of an expression.
    pub open spec fn eval(self, world: World, expr: ExprView, fuel: nat) -> Option<
        (World, ValueView),
    >
        decreases fuel, expr_size(expr),
    {
        match expr {
            ExprView::Number(text) => Some((world, self.literal(text))),
            ExprView::String(text) => Some((world, ValueView::String(text))),
            ExprView::Boolean(b) => Some((world, ValueView::Boolean(b))),
            ExprView::Nil => Some((world, ValueView::Nil)),
            ExprView::Identifier(name) => Some((world, world.variable(name))),
            ExprView::UnaryOp { operator, operand } => match self.eval(world, *operand, fuel) {
                Some((w, value)) => Some((w, self.unary(operator, value))),
                None => None,
            },
            ExprView::BinaryOp { left, operator, right } => match self.eval(world, *left, fuel) {
                Some((w1, l)) => match self.eval(w1, *right, fuel) {
                    Some((w2, r)) => Some((w2, self.binary(operator, l, r))),
                    None => None,
                },
                None => None,
            },
            ExprView::FunctionCall { name, arguments } => match self.eval_list(
                world,
                arguments,
                0,
                fuel,
            ) {
                Some((w, args)) => if fuel == 0 {
                    None
                } else {
                    self.call(w, world.variable(name), args, (fuel - 1) as nat)
                },
                None => None,
            },
            ExprView::TableAccess { table, key } => match self.eval(world, *table, fuel) {
                Some((w1, t)) => match self.eval(w1, *key, fuel) {
                    Some((w2, k)) => Some(
                        (
                            w2,
                            match t {
                                ValueView::Table(pairs) => table_get(pairs, k),
                                _ => ValueView::Nil,
                            },
                        ),
                    ),
                    None => None,
                },
                None => None,
            },
            ExprView::TableConstructor { fields } => match self.build(
                world,
                fields,
                0,
                Seq::empty(),
                fuel,
            ) {
                Some((w, pairs)) => Some((w, ValueView::Table(pairs))),
                None => None,
            },
        }
    }

    /// The meaning of the expressions of a list from `from` on, in order:
    /// their values.
    pub open spec fn eval_list(self, world: World, exprs: Seq<ExprView>, from: nat, fuel: nat)
        -> Option<(World, Seq<ValueView>)>
        decreases fuel, exprs_size(exprs, from),
    {
        if from >= exprs.len() {
            Some((world, Seq::empty()))
        } else {
            match self.eval(world, exprs[from as int], fuel) {
                Some((w1, value)) => match self.eval_list(w1, exprs, from + 1, fuel) {
                    Some((w2, values)) => Some((w2, seq![value] + values)),
                    None => None,
                },
                None => None,
            }
        }
    }

    /// The meaning of the fields of a table constructor from `from` on,
    /// entered in order into a table that holds `pairs`.
    pub open spec fn build(
        self,
        world: World,
        fields: Seq<TableFieldView>,
        from: nat,
        pairs: Seq<(ValueView, ValueView)>,
        fuel: nat,
    ) -> Option<(World, Seq<(ValueView, ValueView)>)>
        decreases fuel, fields_size(fields, from),
    {
        if from >= fields.len() {
            Some((world, pairs))
        } else {
            match self.eval(world, field_expr(fields[from as int]), fuel) {
                Some((w, value)) => self.build(
                    w,
                    fields,
                    from + 1,
                    table_set(pairs, field_key(fields[from as int], pairs), value),
                    fuel,
                ),
                None => None,
            }
        }
    }

    /// The meaning of a call. A builtin does what it does. A user-defined
    /// function runs its body in a new frame that binds its parameters to
    /// the arguments; the frame is closed behind the body, and the value of
    /// the call is that of the body. What is no function gives nil.
    pub open spec fn call(self, world: World, callee: ValueView, args: Seq<ValueView>, fuel: nat)
        -> Option<(World, ValueView)>
        decreases fuel, callee_size(callee),
    {
        match callee {
            ValueView::Function(FunctionView::Native(builtin)) => Some(
                self.builtin(world, builtin, args),
            ),
            ValueView::Function(FunctionView::UserDefined { parameters, body, closure }) => {
                let opened = World {
                    frames: world.frames.push(bind_all(Seq::empty(), parameters, args, 0)),
                    ..world
                };
                match self.exec_block(opened, body, 0, ValueView::Nil, fuel) {
                    Some((w, value)) => Some(
                        (
                            if w.frames.len() > 0 {
                                World { frames: w.frames.drop_last(), ..w }
                            } else {
                                w
                            },
                            value,
                        ),
                    ),
                    None => None,
                }
            },
            _ => Some((world, ValueView::Nil)),
        }
    }

    /// The meaning of the statements of a block from `from` on, `last` being
    /// the value of the statement before: the value of a block is that of
    /// its last statement.
    pub open spec fn exec_block(
        self,
        world: World,
        stmts: Seq<StmtView>,
        from: nat,
        last: ValueView,
        fuel: nat,
    ) -> Option<(World, ValueView)>
        decreases fuel, stmts_size(stmts, from),
    {
        if from >= stmts.len() {
            Some((world, last))
        } else {
            match self.exec(world, stmts[from as int], fuel) {
                Some((w, value)) => self.exec_block(w, stmts, from + 1, value, fuel),
                None => None,
            }
        }
    }

    /// The `elseif` branches of a conditional from `from` on, and its `else`
    /// block: the conditions are evaluated in order up to the first that
    /// holds, and the block of that branch runs; if none holds the `else`
    /// block runs, if there is one.
    pub open spec fn branches(
        self,
        world: World,
        branches: Seq<(ExprView, Seq<StmtView>)>,
        from: nat,
        else_block: Option<Seq<StmtView>>,
        fuel: nat,
    ) -> Option<(World, ValueView)>
        decreases fuel, branches_size(branches, from) + block_size(else_block) + 1,
    {
        if from >= branches.len() {
            match else_block {
                Some(block) => self.exec_block(world, block, 0, ValueView::Nil, fuel),
                None => Some((world, ValueView::Nil)),
            }
        } else {
            match self.eval(world, branches[from as int].0, fuel) {
                Some((w, value)) => if truthy(value) {
                    self.exec_block(w, branches[from as int].1, 0, ValueView::Nil, fuel)
                } else {
                    self.branches(w, branches, from + 1, else_block, fuel)
                },
                None => None,
            }
        }
    }

    /// The turns of a numeric `for` loop from `current` on. A turn binds the
    /// variable in the innermost frame and runs the body; the host adds the
    /// step.
    pub open spec fn for_loop(
        self,
        world: World,
        variable: Seq<char>,
        body: Seq<StmtView>,
        current: Number,
        end: Number,
        step: Number,
        fuel: nat,
    ) -> Option<(World, ValueView)>
        decreases fuel, stmts_size(body, 0) + 1,
    {
        if !for_continues(current, end, step) {
            Some((world, ValueView::Nil))
        } else if world.frames.len() == 0 {
            None
        } else {
            let bound = world.with_locals(
                bind(world.frames.last(), variable, ValueView::Number(current)),
            );
            match self.exec_block(bound, body, 0, ValueView::Nil, fuel) {
                Some((w, _)) => if fuel == 0 {
                    None
                } else {
                    self.for_loop(
                        w,
                        variable,
                        body,
                        (self.compute)(BinaryOperator::Add, current, step),
                        end,
                        step,
                        (fuel - 1) as nat,
                    )
                },
                None => None,
            }
        }
    }

    /// The meaning of a statement.
    pub open spec fn exec(self, world: World, stmt: StmtView, fuel: nat) -> Option<
        (World, ValueView),
    >
        decreases fuel, stmt_size(stmt),
    {
        match stmt {
            StmtView::Expr(e) => self.eval(world, e, fuel),
            StmtView::Assignment { variables, values } => match self.eval_list(
                world,
                values,
                0,
                fuel,
            ) {
                Some((w, vs)) => Some(
                    (World { globals: bind_all(w.globals, variables, vs, 0), ..w }, ValueView::Nil),
                ),
                None => None,
            },
            StmtView::LocalAssignment { variables, values } => match self.eval_list(
                world,
                values,
                0,
                fuel,
            ) {
                Some((w, vs)) => if w.frames.len() == 0 {
                    None
                } else {
                    Some(
                        (
                            w.with_locals(bind_all(w.frames.last(), variables, vs, 0)),
                            ValueView::Nil,
                        ),
                    )
                },
                None => None,
            },
            StmtView::If { condition, then_block, else_if_blocks, else_block } => match self.eval(
                world,
                condition,
                fuel,
            ) {
                Some((w1, value)) => if truthy(value) {
                    self.exec_block(w1, then_block, 0, ValueView::Nil, fuel)
                } else {
                    self.branches(w1, else_if_blocks, 0, else_block, fuel)
                },
                None => None,
            },
            StmtView::While { condition, body } => match self.eval(world, condition, fuel) {
                Some((w1, value)) => if truthy(value) {
                    match self.exec_block(w1, body, 0, ValueView::Nil, fuel) {
                        Some((w2, _)) => if fuel == 0 {
                            None
                        } else {
                            self.exec(w2, stmt, (fuel - 1) as nat)
                        },
                        None => None,
                    }
                } else {
                    Some((w1, ValueView::Nil))
                },
                None => None,
            },
            StmtView::Repeat { body, condition } => match self.exec_block(
                world,
                body,
                0,
                ValueView::Nil,
                fuel,
            ) {
                Some((w1, _)) => match self.eval(w1, condition, fuel) {
                    Some((w2, value)) => if truthy(value) {
                        Some((w2, ValueView::Nil))
                    } else if fuel == 0 {
                        None
                    } else {
                        self.exec(w2, stmt, (fuel - 1) as nat)
                    },
                    None => None,
                },
                None => None,
            },
            StmtView::For { variable, start, end, step, body } => match self.eval(
                world,
                start,
                fuel,
            ) {
                Some((w1, first)) => match self.eval(w1, end, fuel) {
                    Some((w2, last)) => match step {
                        Some(e) => match self.eval(w2, e, fuel) {
                            Some((w3, by)) => self.for_loop(
                                w3,
                                variable,
                                body,
                                self.bound(first, Number::spec_zero()),
                                self.bound(last, Number::spec_zero()),
                                self.bound(by, Number::spec_one()),
                                fuel,
                            ),
                            None => None,
                        },
                        None => self.for_loop(
                            w2,
                            variable,
                            body,
                            self.bound(first, Number::spec_zero()),
                            self.bound(last, Number::spec_zero()),
                            Number::spec_one(),
                            fuel,
                        ),
                    },
                    None => None,
                },
                None => None,
            },
            StmtView::Function { name, parameters, body } => Some(
                (
                    World {
                        globals: bind(
                            world.globals,
                            name,
                            ValueView::Function(
                                FunctionView::UserDefined {
                                    parameters,
                                    body,
                                    closure: Seq::empty(),
                                },
                            ),
                        ),
                        ..world
                    },
                    ValueView::Nil,
                ),
            ),
            StmtView::LocalFunction { name, parameters, body } => if world.frames.len() == 0 {
                None
            } else {
                Some(
                    (
                        world.with_locals(
                            bind(
                                world.frames.last(),
                                name,
                                ValueView::Function(
                                    FunctionView::UserDefined {
                                        parameters,
                                        body,
                                        closure: Seq::empty(),
                                    },
                                ),
                            ),
                        ),
                        ValueView::Nil,
                    ),
                )
            },
            StmtView::Return(None) => Some((world, ValueView::Nil)),
            StmtView::Return(Some(values)) => match self.eval_list(world, values, 0, fuel) {
                Some((w, vs)) => Some(
                    (
                        w,
                        if vs.len() > 0 {
                            vs[0]
                        } else {
                            ValueView::Nil
                        },
                    ),
                ),
                None => None,
            },
            StmtView::Break => Some((world, ValueView::Nil)),
        }
    }

    /// The meaning of a program: its statements run as a block.
    pub open spec fn run(self, world: World, stmts: Seq<StmtView>, fuel: nat) -> Option<
        (World, ValueView),
    > {
        self.exec_block(world, stmts, 0, ValueView::Nil, fuel)
    }
}

/// Coercing a bound of a numeric `for` loop puts the number it stands for in
/// its place, the host reading it where it is a string.
pub proof fn lemma_coerce(
    host: HostModel,
    vm: VmView,
    lines: Seq<Seq<char>>,
    value: ValueView,
    default: Number,
) -> (count: nat)
    ensures
        host.steps(ready(vm.with_value(value).with_task(TaskView::Coerce { default }), lines), count)
            == ready(vm.with_value(ValueView::Number(host.bound(value, default))), lines),
{
    let task = TaskView::Coerce { default };
    let start = vm.with_value(value).with_task(task);
    let result = vm.with_value(ValueView::Number(host.bound(value, default)));
    lemma_scheduled_task(vm.with_value(value), task);
    lemma_pushed_value(vm, value);
    match coercion(value) {
        CoercionView::Text(text) => {
            let receive = TaskView::Receive {
                expect: Expect::Number,
                fallback: ValueView::Number(default),
                slot: Slot::Push,
            };
            lemma_scheduled_task(vm, receive);
            lemma_asking_steps(
                host,
                start,
                lines,
                vm.with_task(receive),
                RequestView::Parse(text),
                result,
            );
            2
        },
        _ => {
            lemma_quiet_step(host, start, lines, result);
            1
        },
    }
}

/// `print` writes one line: the texts of its arguments, the host writing the
/// numbers, with a tab between one and the next; and gives nil.
pub proof fn lemma_print(
    host: HostModel,
    vm: VmView,
    lines: Seq<Seq<char>>,
    args: Seq<ValueView>,
    from: nat,
    line: Seq<char>,
) -> (count: nat)
    ensures
        host.steps(
            ready(vm.with_task(TaskView::Print { args, next: from, line, pending: false }), lines),
            count,
        ) == ready(vm.with_value(ValueView::Nil), lines.push(host.print_text(args, from, line))),
    decreases args.len() - from,
{
    let task = TaskView::Print { args, next: from, line, pending: false };
    let start = vm.with_task(task);
    lemma_scheduled_task(vm, task);
    if from >= args.len() {
        // the line is complete: it is printed
        let receive = TaskView::Receive {
            expect: Expect::Nothing,
            fallback: ValueView::Nil,
            slot: Slot::Push,
        };
        let waiting = vm.with_task(receive);
        lemma_scheduled_task(vm, receive);
        let printed = Run { vm: waiting, reply: ReplyView::Nothing, lines: lines.push(line) };
        assert(host.step(ready(start, lines)) == printed);
        assert(host.step(printed) == ready(vm.with_value(ValueView::Nil), lines.push(line)));
        assert(host.steps(ready(start, lines), 2) == ready(
            vm.with_value(ValueView::Nil),
            lines.push(line),
        )) by {
            reveal_with_fuel(HostModel::steps, 3);
        }
        2
    } else {
        let longer = line + separator(from) + host.textual(args[from as int]);
        let next = vm.with_task(
            TaskView::Print { args, next: from + 1, line: longer, pending: false },
        );
        let rest = lemma_print(host, vm, lines, args, from + 1, longer);
        match rendering(args[from as int]) {
            RenderingView::Text(text) => {
                lemma_quiet_step(host, start, lines, next);
                lemma_steps_add(host, ready(start, lines), 1, rest);
                rest + 1
            },
            RenderingView::Number(n) => {
                // the host writes the number
                let asking = TaskView::Print { args, next: from, line, pending: true };
                lemma_scheduled_task(vm, asking);
                lemma_asking_steps(
                    host,
                    start,
                    lines,
                    vm.with_task(asking),
                    RequestView::Format(n),
                    next,
                );
                lemma_steps_add(host, ready(start, lines), 2, rest);
                rest + 2
            },
        }
    }
}

/// Calling a builtin with the arguments on top of the stack does what the
/// builtin does and puts what it gives in their place.
pub proof fn lemma_builtin(
    host: HostModel,
    vm: VmView,
    lines: Seq<Seq<char>>,
    builtin: Builtin,
    args: Seq<ValueView>,
) -> (count: nat)
    ensures
        ({
            let (world, value) = host.builtin(vm.world(lines), builtin, args);
            let callee = ValueView::Function(FunctionView::Native(builtin));
            &&& world.globals == vm.globals
            &&& world.frames == vm.frames
            &&& host.steps(
                ready(
                    (VmView { stack: vm.stack + args, ..vm }).with_task(
                        TaskView::Call { callee, count: args.len() },
                    ),
                    lines,
                ),
                count,
            ) == ready(vm.with_value(value), world.lines)
        }),
{
    let callee = ValueView::Function(FunctionView::Native(builtin));
    let task = TaskView::Call { callee, count: args.len() };
    let loaded = VmView { stack: vm.stack + args, ..vm };
    let start = loaded.with_task(task);
    lemma_scheduled_task(loaded, task);
    assert(loaded.top_values(args.len()) =~= args);
    assert(loaded.dropped_values(args.len()) == vm) by {
        assert(loaded.stack.subrange(0, loaded.stack.len() - args.len()) =~= vm.stack);
    }
    let (world, value) = host.builtin(vm.world(lines), builtin, args);
    match builtin {
        Builtin::Print => {
            let print = TaskView::Print { args, next: 0, line: Seq::empty(), pending: false };
            lemma_quiet_step(host, start, lines, vm.with_task(print));
            let rest = lemma_print(host, vm, lines, args, 0, Seq::empty());
            lemma_steps_add(host, ready(start, lines), 1, rest);
            rest + 1
        },
        Builtin::Type => {
            lemma_quiet_step(host, start, lines, vm.with_value(value));
            1
        },
        Builtin::ToNumber => {
            if args.len() > 0 && coercion(args[0]) is Text {
                let receive = TaskView::Receive {
                    expect: Expect::Number,
                    fallback: ValueView::Nil,
                    slot: Slot::Push,
                };
                lemma_scheduled_task(vm, receive);
                lemma_asking_steps(
                    host,
                    start,
                    lines,
                    vm.with_task(receive),
                    RequestView::Parse(coercion(args[0])->Text_0),
                    vm.with_value(value),
                );
                2
            } else {
                lemma_quiet_step(host, start, lines, vm.with_value(value));
                1
            }
        },
        Builtin::ToString => {
            if args.len() > 0 && rendering(args[0]) is Number {
                let receive = TaskView::Receive {
                    expect: Expect::Text,
                    fallback: ValueView::String(Seq::empty()),
                    slot: Slot::Push,
                };
                lemma_scheduled_task(vm, receive);
                lemma_asking_steps(
                    host,
                    start,
                    lines,
                    vm.with_task(receive),
                    RequestView::Format(rendering(args[0])->Number_0),
                    vm.with_value(value),
                );
                2
            } else {
                lemma_quiet_step(host, start, lines, vm.with_value(value));
                1
            }
        },
    }
}

/// The table that holds `pairs` and the value that waits to be entered
/// under `pending`.
pub open spec fn entered(
    pairs: Seq<(ValueView, ValueView)>,
    pending: PendingKeyView,
    value: ValueView,
) -> Seq<(ValueView, ValueView)> {
    match pending {
        PendingKeyView::Idle => pairs,
        PendingKeyView::Position => table_set(
            pairs,
            ValueView::Number(Number { bits: integer_bits(next_position(pairs.len())) as u64 }),
            value,
        ),
        PendingKeyView::Name(name) => table_set(pairs, ValueView::String(name), value),
    }
}

/// The key under which the value of a field waits to be entered.
pub open spec fn field_pending(field: TableFieldView) -> PendingKeyView {
    match field {
        TableFieldView::Value(_) => PendingKeyView::Position,
        TableFieldView::KeyValue(name, _) => PendingKeyView::Name(name),
    }
}

/// The evaluator does what the expression means: evaluating an expression
/// leaves the world that the expression leaves, puts the value of the
/// expression on the stack, and changes nothing else.
pub proof fn lemma_eval(
    host: HostModel,
    vm: VmView,
    lines: Seq<Seq<char>>,
    expr: ExprView,
    fuel: nat,
) -> (count: nat)
    requires
        host.eval(vm.world(lines), expr, fuel) is Some,
    ensures
        ({
            let (world, value) = host.eval(vm.world(lines), expr, fuel)->0;
            host.steps(ready(vm.with_task(TaskView::Eval(expr)), lines), count) == ready(
                vm.in_world(world).with_value(value),
                world.lines,
            )
        }),
    decreases fuel, expr_size(expr),
{
    let start = vm.with_task(TaskView::Eval(expr));
    let (world, value) = host.eval(vm.world(lines), expr, fuel)->0;
    let result = vm.in_world(world).with_value(value);
    lemma_scheduled_task(vm, TaskView::Eval(expr));
    match expr {
        ExprView::Number(text) => {
            lemma_literal_value(host, vm, lines, text);
            2
        },
        ExprView::UnaryOp { operator, operand } => {
            let operand = *operand;
            let waiting = vm.with_task(TaskView::Unary(operator));
            lemma_quiet_step(host, start, lines, waiting.with_task(TaskView::Eval(operand)));
            let first = lemma_eval(host, waiting, lines, operand, fuel);
            let (w, v) = host.eval(vm.world(lines), operand, fuel)->0;
            let second = lemma_unary(host, vm.in_world(w), w.lines, operator, v);
            lemma_steps_add(
                host,
                ready(waiting.with_task(TaskView::Eval(operand)), lines),
                first,
                second,
            );
            lemma_steps_add(host, ready(start, lines), 1, first + second);
            first + second + 1
        },
        ExprView::BinaryOp { left, operator, right } => {
            let left = *left;
            let right = *right;
            let waiting = vm.with_task(TaskView::Binary(operator));
            let for_right = waiting.with_task(TaskView::Eval(right));
            let scheduled = for_right.with_task(TaskView::Eval(left));
            lemma_quiet_step(host, start, lines, scheduled);
            let first = lemma_eval(host, for_right, lines, left, fuel);
            let (w1, l) = host.eval(vm.world(lines), left, fuel)->0;
            let with_left = waiting.in_world(w1).with_value(l);
            assert(for_right.in_world(w1).with_value(l) == with_left.with_task(
                TaskView::Eval(right),
            ));
            let second = lemma_eval(host, with_left, w1.lines, right, fuel);
            let (w2, r) = host.eval(w1, right, fuel)->0;
            assert(with_left.in_world(w2).with_value(r) == vm.in_world(w2).with_value(
                l,
            ).with_value(r).with_task(TaskView::Binary(operator)));
            let third = lemma_binary(host, vm.in_world(w2), w2.lines, operator, l, r);
            lemma_steps_add(host, ready(scheduled, lines), first, second);
            lemma_steps_add(host, ready(scheduled, lines), first + second, third);
            lemma_steps_add(host, ready(start, lines), 1, first + second + third);
            first + second + third + 1
        },
        ExprView::TableAccess { table, key } => {
            let table = *table;
            let key = *key;
            let waiting = vm.with_task(TaskView::Index);
            let for_key = waiting.with_task(TaskView::Eval(key));
            let scheduled = for_key.with_task(TaskView::Eval(table));
            lemma_quiet_step(host, start, lines, scheduled);
            let first = lemma_eval(host, for_key, lines, table, fuel);
            let (w1, t) = host.eval(vm.world(lines), table, fuel)->0;
            let with_table = waiting.in_world(w1).with_value(t);
            assert(for_key.in_world(w1).with_value(t) == with_table.with_task(
                TaskView::Eval(key),
            ));
            let second = lemma_eval(host, with_table, w1.lines, key, fuel);
            let (w2, k) = host.eval(w1, key, fuel)->0;
            assert(with_table.in_world(w2).with_value(k) == vm.in_world(w2).with_value(
                t,
            ).with_value(k).with_task(TaskView::Index));
            lemma_index(host, vm.in_world(w2), w2.lines, t, k);
            lemma_steps_add(host, ready(scheduled, lines), first, second);
            lemma_steps_add(host, ready(scheduled, lines), first + second, 1);
            lemma_steps_add(host, ready(start, lines), 1, first + second + 1);
            first + second + 2
        },
        ExprView::FunctionCall { name, arguments } => {
            let callee = vm.variable(name);
            let call = TaskView::Call { callee, count: arguments.len() };
            let waiting = vm.with_task(call);
            let scheduled = waiting.with_task(TaskView::EvalList { exprs: arguments, next: 0 });
            lemma_quiet_step(host, start, lines, scheduled);
            let first = lemma_eval_list(host, waiting, lines, arguments, 0, fuel);
            let (w, args) = host.eval_list(vm.world(lines), arguments, 0, fuel)->0;
            let after = vm.in_world(w);
            assert((VmView { stack: waiting.stack + args, ..waiting.in_world(w) }) == (VmView {
                stack: after.stack + args,
                ..after
            }).with_task(TaskView::Call { callee, count: args.len() }));
            let second = lemma_call(host, after, w.lines, callee, args, (fuel - 1) as nat);
            lemma_steps_add(host, ready(scheduled, lines), first, second);
            lemma_steps_add(host, ready(start, lines), 1, first + second);
            first + second + 1
        },
        ExprView::TableConstructor { fields } => {
            let build = TaskView::BuildTable {
                fields,
                next: 0,
                pairs: Seq::empty(),
                pending: PendingKeyView::Idle,
            };
            lemma_quiet_step(host, start, lines, vm.with_task(build));
            let rest = lemma_build(
                host,
                vm,
                lines,
                fields,
                0,
                Seq::empty(),
                PendingKeyView::Idle,
                ValueView::Nil,
                fuel,
            );
            lemma_steps_add(host, ready(start, lines), 1, rest);
            rest + 1
        },
        _ => {
            lemma_quiet_step(host, start, lines, result);
            1
        },
    }
}

/// The evaluator evaluates the expressions of a list in order and leaves
/// their values on the stack, the last one on top.
pub proof fn lemma_eval_list(
    host: HostModel,
    vm: VmView,
    lines: Seq<Seq<char>>,
    exprs: Seq<ExprView>,
    from: nat,
    fuel: nat,
) -> (count: nat)
    requires
        from <= exprs.len(),
        host.eval_list(vm.world(lines), exprs, from, fuel) is Some,
    ensures
        ({
            let (world, values) = host.eval_list(vm.world(lines), exprs, from, fuel)->0;
            &&& values.len() == exprs.len() - from
            &&& host.steps(
                ready(vm.with_task(TaskView::EvalList { exprs, next: from }), lines),
                count,
            ) == ready(VmView { stack: vm.stack + values, ..vm.in_world(world) }, world.lines)
        }),
    decreases fuel, exprs_size(exprs, from),
{
    let task = TaskView::EvalList { exprs, next: from };
    let start = vm.with_task(task);
    lemma_scheduled_task(vm, task);
    if from >= exprs.len() {
        assert(vm.stack + Seq::<ValueView>::empty() =~= vm.stack);
        lemma_quiet_step(host, start, lines, vm);
        1
    } else {
        let expr = exprs[from as int];
        let waiting = vm.with_task(TaskView::EvalList { exprs, next: from + 1 });
        let scheduled = waiting.with_task(TaskView::Eval(expr));
        lemma_quiet_step(host, start, lines, scheduled);
        let first = lemma_eval(host, waiting, lines, expr, fuel);
        let (w1, value) = host.eval(vm.world(lines), expr, fuel)->0;
        let with_value = vm.in_world(w1).with_value(value);
        assert(waiting.in_world(w1).with_value(value) == with_value.with_task(
            TaskView::EvalList { exprs, next: from + 1 },
        ));
        let second = lemma_eval_list(host, with_value, w1.lines, exprs, from + 1, fuel);
        let (w2, values) = host.eval_list(w1, exprs, from + 1, fuel)->0;
        assert(with_value.stack + values =~= vm.stack + (seq![value] + values));
        assert((VmView { stack: with_value.stack + values, ..with_value.in_world(w2) }) == (VmView {
            stack: vm.stack + (seq![value] + values),
            ..vm.in_world(w2)
        }));
        lemma_steps_add(host, ready(scheduled, lines), first, second);
        lemma_steps_add(host, ready(start, lines), 1, first + second);
        first + second + 1
    }
}

/// The evaluator builds a table as the constructor means: the fields are
/// evaluated and entered in order.
pub proof fn lemma_build(
    host: HostModel,
    vm: VmView,
    lines: Seq<Seq<char>>,
    fields: Seq<TableFieldView>,
    from: nat,
    pairs: Seq<(ValueView, ValueView)>,
    pending: PendingKeyView,
    value: ValueView,
    fuel: nat,
) -> (count: nat)
    requires
        host.build(vm.world(lines), fields, from, entered(pairs, pending, value), fuel) is Some,
    ensures
        ({
            let (world, table) = host.build(
                vm.world(lines),
                fields,
                from,
                entered(pairs, pending, value),
                fuel,
            )->0;
            let waiting = if pending is Idle {
                vm
            } else {
                vm.with_value(value)
            };
            host.steps(
                ready(
                    waiting.with_task(TaskView::BuildTable { fields, next: from, pairs, pending }),
                    lines,
                ),
                count,
            ) == ready(vm.in_world(world).with_value(ValueView::Table(table)), world.lines)
        }),
    decreases fuel, fields_size(fields, from),
{
    let task = TaskView::BuildTable { fields, next: from, pairs, pending };
    let waiting = if pending is Idle {
        vm
    } else {
        vm.with_value(value)
    };
    let start = waiting.with_task(task);
    let known = entered(pairs, pending, value);
    lemma_scheduled_task(waiting, task);
    lemma_pushed_value(vm, value);
    if from < fields.len() {
        let field = fields[from as int];
        let expr = field_expr(field);
        let key = field_pending(field);
        let next = TaskView::BuildTable { fields, next: from + 1, pairs: known, pending: key };
        let scheduled = vm.with_task(next).with_task(TaskView::Eval(expr));
        lemma_quiet_step(host, start, lines, scheduled);
        let first = lemma_eval(host, vm.with_task(next), lines, expr, fuel);
        let (w, v) = host.eval(vm.world(lines), expr, fuel)->0;
        assert(vm.with_task(next).in_world(w).with_value(v) == vm.in_world(w).with_value(
            v,
        ).with_task(next));
        assert(entered(known, key, v) == table_set(known, field_key(field, known), v));
        let second = lemma_build(host, vm.in_world(w), w.lines, fields, from + 1, known, key, v, fuel);
        lemma_steps_add(host, ready(scheduled, lines), first, second);
        lemma_steps_add(host, ready(start, lines), 1, first + second);
        first + second + 1
    } else {
        lemma_quiet_step(host, start, lines, vm.with_value(ValueView::Table(known)));
        1
    }
}

/// The evaluator does what a call means, the arguments lying on top of the
/// stack.
pub proof fn lemma_call(
    host: HostModel,
    vm: VmView,
    lines: Seq<Seq<char>>,
    callee: ValueView,
    args: Seq<ValueView>,
    fuel: nat,
) -> (count: nat)
    requires
        host.call(vm.world(lines), callee, args, fuel) is Some,
    ensures
        ({
            let (world, value) = host.call(vm.world(lines), callee, args, fuel)->0;
            host.steps(
                ready(
                    (VmView { stack: vm.stack + args, ..vm }).with_task(
                        TaskView::Call { callee, count: args.len() },
                    ),
                    lines,
                ),
                count,
            ) == ready(vm.in_world(world).with_value(value), world.lines)
        }),
    decreases fuel, callee_size(callee),
{
    let task = TaskView::Call { callee, count: args.len() };
    let loaded = VmView { stack: vm.stack + args, ..vm };
    let start = loaded.with_task(task);
    match callee {
        ValueView::Function(FunctionView::Native(builtin)) => {
            let count = lemma_builtin(host, vm, lines, builtin, args);
            let (world, value) = host.builtin(vm.world(lines), builtin, args);
            assert(vm.in_world(world) == vm);
            count
        },
        ValueView::Function(FunctionView::UserDefined { parameters, body, closure }) => {
            lemma_scheduled_task(loaded, task);
            assert(loaded.top_values(args.len()) =~= args);
            assert(loaded.dropped_values(args.len()) == vm) by {
                assert(loaded.stack.subrange(0, loaded.stack.len() - args.len()) =~= vm.stack);
            }
            let frame = bind_all(Seq::empty(), parameters, args, 0);
            let opened = VmView { frames: vm.frames.push(frame), ..vm };
            let closing = opened.with_task(TaskView::PopFrame);
            let scheduled = closing.with_task(TaskView::Block { stmts: body, next: 0 });
            lemma_quiet_step(host, start, lines, scheduled);
            let first = lemma_block(host, closing, lines, body, 0, ValueView::Nil, fuel);
            let (w, value) = host.exec_block(opened.world(lines), body, 0, ValueView::Nil, fuel)->0;
            let ran = opened.in_world(w).with_value(value);
            assert(closing.in_world(w).with_value(value) == ran.with_task(TaskView::PopFrame));
            lemma_scheduled_task(ran, TaskView::PopFrame);
            let (world, _) = host.call(vm.world(lines), callee, args, fuel)->0;
            lemma_quiet_step(
                host,
                ran.with_task(TaskView::PopFrame),
                w.lines,
                vm.in_world(world).with_value(value),
            );
            lemma_steps_add(host, ready(scheduled, lines), first, 1);
            lemma_steps_add(host, ready(start, lines), 1, first + 1);
            first + 2
        },
        _ => {
            lemma_scheduled_task(loaded, task);
            assert(loaded.dropped_values(args.len()) == vm) by {
                assert(loaded.stack.subrange(0, loaded.stack.len() - args.len()) =~= vm.stack);
            }
            lemma_quiet_step(host, start, lines, vm.with_value(ValueView::Nil));
            1
        },
    }
}

/// The evaluator runs the statements of a block in order; the value of the
/// statement before lies on top of the stack, unless the block is at its
/// start.
pub proof fn lemma_block(
    host: HostModel,
    vm: VmView,
    lines: Seq<Seq<char>>,
    stmts: Seq<StmtView>,
    from: nat,
    last: ValueView,
    fuel: nat,
) -> (count: nat)
    requires
        from <= stmts.len(),
        from == 0 ==> last == ValueView::Nil,
        host.exec_block(vm.world(lines), stmts, from, last, fuel) is Some,
    ensures
        ({
            let (world, value) = host.exec_block(vm.world(lines), stmts, from, last, fuel)->0;
            let waiting = if from == 0 {
                vm
            } else {
                vm.with_value(last)
            };
            host.steps(
                ready(waiting.with_task(TaskView::Block { stmts, next: from }), lines),
                count,
            ) == ready(vm.in_world(world).with_value(value), world.lines)
        }),
    decreases fuel, stmts_size(stmts, from),
{
    let task = TaskView::Block { stmts, next: from };
    let waiting = if from == 0 {
        vm
    } else {
        vm.with_value(last)
    };
    let start = waiting.with_task(task);
    lemma_scheduled_task(waiting, task);
    lemma_pushed_value(vm, last);
    if from < stmts.len() {
        let stmt = stmts[from as int];
        let next = TaskView::Block { stmts, next: from + 1 };
        let scheduled = vm.with_task(next).with_task(TaskView::Exec(stmt));
        lemma_quiet_step(host, start, lines, scheduled);
        let first = lemma_exec(host, vm.with_task(next), lines, stmt, fuel);
        let (w, v) = host.exec(vm.world(lines), stmt, fuel)->0;
        assert(vm.with_task(next).in_world(w).with_value(v) == vm.in_world(w).with_value(
            v,
        ).with_task(next));
        let second = lemma_block(host, vm.in_world(w), w.lines, stmts, from + 1, v, fuel);
        lemma_steps_add(host, ready(scheduled, lines), first, second);
        lemma_steps_add(host, ready(start, lines), 1, first + second);
        first + second + 1
    } else {
        lemma_quiet_step(host, start, lines, vm.with_value(last));
        1
    }
}

/// The evaluator goes through the `elseif` branches of a conditional as
/// they mean: the condition before, whose value lies on top of the stack,
/// did not hold.
pub proof fn lemma_branches(
    host: HostModel,
    vm: VmView,
    lines: Seq<Seq<char>>,
    then_block: Seq<StmtView>,
    branches: Seq<(ExprView, Seq<StmtView>)>,
    from: nat,
    else_block: Option<Seq<StmtView>>,
    failed: ValueView,
    fuel: nat,
) -> (count: nat)
    requires
        !truthy(failed),
        from <= branches.len(),
        host.branches(vm.world(lines), branches, from, else_block, fuel) is Some,
    ensures
        ({
            let (world, value) = host.branches(vm.world(lines), branches, from, else_block, fuel)->0;
            host.steps(
                ready(
                    vm.with_value(failed).with_task(
                        TaskView::IfTest {
                            then_block,
                            else_if_blocks: branches,
                            else_block,
                            index: from,
                        },
                    ),
                    lines,
                ),
                count,
            ) == ready(vm.in_world(world).with_value(value), world.lines)
        }),
    decreases fuel, branches_size(branches, from) + block_size(else_block) + 1,
{
    let task = TaskView::IfTest { then_block, else_if_blocks: branches, else_block, index: from };
    let start = vm.with_value(failed).with_task(task);
    lemma_scheduled_task(vm.with_value(failed), task);
    lemma_pushed_value(vm, failed);
    if from < branches.len() {
        let condition = branches[from as int].0;
        let block = branches[from as int].1;
        let next = TaskView::IfTest {
            then_block,
            else_if_blocks: branches,
            else_block,
            index: from + 1,
        };
        let scheduled = vm.with_task(next).with_task(TaskView::Eval(condition));
        lemma_quiet_step(host, start, lines, scheduled);
        let first = lemma_eval(host, vm.with_task(next), lines, condition, fuel);
        let (w, v) = host.eval(vm.world(lines), condition, fuel)->0;
        let tested = vm.in_world(w);
        assert(vm.with_task(next).in_world(w).with_value(v) == tested.with_value(v).with_task(
            next,
        ));
        lemma_steps_add(host, ready(start, lines), 1, first);
        if truthy(v) {
            lemma_scheduled_task(tested.with_value(v), next);
            lemma_pushed_value(tested, v);
            let chosen = tested.with_task(TaskView::Block { stmts: block, next: 0 });
            lemma_quiet_step(host, tested.with_value(v).with_task(next), w.lines, chosen);
            let second = lemma_block(host, tested, w.lines, block, 0, ValueView::Nil, fuel);
            lemma_steps_add(host, ready(start, lines), 1 + first, 1);
            lemma_steps_add(host, ready(start, lines), 2 + first, second);
            first + second + 2
        } else {
            let second = lemma_branches(
                host,
                tested,
                w.lines,
                then_block,
                branches,
                from + 1,
                else_block,
                v,
                fuel,
            );
            lemma_steps_add(host, ready(start, lines), 1 + first, second);
            first + second + 1
        }
    } else {
        match else_block {
            Some(block) => {
                let chosen = vm.with_task(TaskView::Block { stmts: block, next: 0 });
                lemma_quiet_step(host, start, lines, chosen);
                let rest = lemma_block(host, vm, lines, block, 0, ValueView::Nil, fuel);
                lemma_steps_add(host, ready(start, lines), 1, rest);
                rest + 1
            },
            None => {
                lemma_quiet_step(host, start, lines, vm.with_value(ValueView::Nil));
                1
            },
        }
    }
}

/// The evaluator runs the turns of a numeric `for` loop as they mean: the
/// number of the turn lies on top of the stack.
pub proof fn lemma_for_loop(
    host: HostModel,
    vm: VmView,
    lines: Seq<Seq<char>>,
    variable: Seq<char>,
    body: Seq<StmtView>,
    current: Number,
    end: Number,
    step: Number,
    fuel: nat,
) -> (count: nat)
    requires
        host.for_loop(vm.world(lines), variable, body, current, end, step, fuel) is Some,
    ensures
        ({
            let (world, value) = host.for_loop(
                vm.world(lines),
                variable,
                body,
                current,
                end,
                step,
                fuel,
            )->0;
            host.steps(
                ready(
                    vm.with_value(ValueView::Number(current)).with_task(
                        TaskView::ForLoop { variable, body, end, step },
                    ),
                    lines,
                ),
                count,
            ) == ready(vm.in_world(world).with_value(value), world.lines)
        }),
    decreases fuel, stmts_size(body, 0) + 1,
{
    let task = TaskView::ForLoop { variable, body, end, step };
    let number = ValueView::Number(current);
    let start = vm.with_value(number).with_task(task);
    lemma_scheduled_task(vm.with_value(number), task);
    lemma_pushed_value(vm, number);
    if !for_continues(current, end, step) {
        lemma_quiet_step(host, start, lines, vm.with_value(ValueView::Nil));
        1
    } else {
        // a turn: the variable is bound and the body runs
        let bound = vm.with_locals(bind(vm.locals(), variable, number));
        let stepping = TaskView::ForStep { variable, body, current, end, step };
        let scheduled = bound.with_task(stepping).with_task(
            TaskView::Block { stmts: body, next: 0 },
        );
        lemma_quiet_step(host, start, lines, scheduled);
        assert(bound.world(lines) == vm.world(lines).with_locals(
            bind(vm.frames.last(), variable, number),
        ));
        let first = lemma_block(
            host,
            bound.with_task(stepping),
            lines,
            body,
            0,
            ValueView::Nil,
            fuel,
        );
        let (w, v) = host.exec_block(bound.world(lines), body, 0, ValueView::Nil, fuel)->0;
        let ran = vm.in_world(w);
        assert(bound.with_task(stepping).in_world(w).with_value(v) == ran.with_value(v).with_task(
            stepping,
        ));
        // the host adds the step
        lemma_scheduled_task(ran.with_value(v), stepping);
        lemma_pushed_value(ran, v);
        let receive = TaskView::Receive {
            expect: Expect::Number,
            fallback: ValueView::Nil,
            slot: Slot::Push,
        };
        let next = (host.compute)(BinaryOperator::Add, current, step);
        let waiting = ran.with_task(task).with_task(receive);
        lemma_scheduled_task(ran.with_task(task), receive);
        let again = ran.with_value(ValueView::Number(next)).with_task(task);
        assert(ran.with_task(task).with_value(ValueView::Number(next)) == again);
        lemma_asking_steps(
            host,
            ran.with_value(v).with_task(stepping),
            w.lines,
            waiting,
            RequestView::Arithmetic(BinaryOperator::Add, current, step),
            again,
        );
        // and the loop goes on
        let rest = lemma_for_loop(
            host,
            ran,
            w.lines,
            variable,
            body,
            next,
            end,
            step,
            (fuel - 1) as nat,
        );
        lemma_steps_add(host, ready(start, lines), 1, first);
        lemma_steps_add(host, ready(start, lines), 1 + first, 2);
        lemma_steps_add(host, ready(start, lines), 3 + first, rest);
        first + rest + 3
    }
}

/// The evaluator does what the statement means: executing a statement
/// leaves the world that the statement leaves, puts the value of the
/// statement on the stack, and changes nothing else.
pub proof fn lemma_exec(
    host: HostModel,
    vm: VmView,
    lines: Seq<Seq<char>>,
    stmt: StmtView,
    fuel: nat,
) -> (count: nat)
    requires
        host.exec(vm.world(lines), stmt, fuel) is Some,
    ensures
        ({
            let (world, value) = host.exec(vm.world(lines), stmt, fuel)->0;
            host.steps(ready(vm.with_task(TaskView::Exec(stmt)), lines), count) == ready(
                vm.in_world(world).with_value(value),
                world.lines,
            )
        }),
    decreases fuel, stmt_size(stmt),
{
    let start = vm.with_task(TaskView::Exec(stmt));
    let (world, value) = host.exec(vm.world(lines), stmt, fuel)->0;
    let result = vm.in_world(world).with_value(value);
    lemma_scheduled_task(vm, TaskView::Exec(stmt));
    match stmt {
        StmtView::Expr(e) => {
            lemma_quiet_step(host, start, lines, vm.with_task(TaskView::Eval(e)));
            let rest = lemma_eval(host, vm, lines, e, fuel);
            lemma_steps_add(host, ready(start, lines), 1, rest);
            rest + 1
        },
        StmtView::Assignment { variables, values } => {
            let assign = TaskView::Assign { variables, count: values.len(), local: false };
            let waiting = vm.with_task(assign);
            let scheduled = waiting.with_task(TaskView::EvalList { exprs: values, next: 0 });
            lemma_quiet_step(host, start, lines, scheduled);
            let first = lemma_eval_list(host, waiting, lines, values, 0, fuel);
            let (w, vs) = host.eval_list(vm.world(lines), values, 0, fuel)->0;
            let after = vm.in_world(w);
            let loaded = VmView { stack: after.stack + vs, ..after };
            assert((VmView { stack: waiting.stack + vs, ..waiting.in_world(w) })
                == loaded.with_task(assign));
            lemma_scheduled_task(loaded, assign);
            assert(loaded.top_values(vs.len()) =~= vs);
            assert(loaded.dropped_values(vs.len()) == after) by {
                assert(loaded.stack.subrange(0, loaded.stack.len() - vs.len()) =~= after.stack);
            }
            lemma_quiet_step(host, loaded.with_task(assign), w.lines, result);
            lemma_steps_add(host, ready(scheduled, lines), first, 1);
            lemma_steps_add(host, ready(start, lines), 1, first + 1);
            first + 2
        },
        StmtView::LocalAssignment { variables, values } => {
            let assign = TaskView::Assign { variables, count: values.len(), local: true };
            let waiting = vm.with_task(assign);
            let scheduled = waiting.with_task(TaskView::EvalList { exprs: values, next: 0 });
            lemma_quiet_step(host, start, lines, scheduled);
            let first = lemma_eval_list(host, waiting, lines, values, 0, fuel);
            let (w, vs) = host.eval_list(vm.world(lines), values, 0, fuel)->0;
            let after = vm.in_world(w);
            let loaded = VmView { stack: after.stack + vs, ..after };
            assert((VmView { stack: waiting.stack + vs, ..waiting.in_world(w) })
                == loaded.with_task(assign));
            lemma_scheduled_task(loaded, assign);
            assert(loaded.top_values(vs.len()) =~= vs);
            assert(loaded.dropped_values(vs.len()) == after) by {
                assert(loaded.stack.subrange(0, loaded.stack.len() - vs.len()) =~= after.stack);
            }
            lemma_quiet_step(host, loaded.with_task(assign), w.lines, result);
            lemma_steps_add(host, ready(scheduled, lines), first, 1);
            lemma_steps_add(host, ready(start, lines), 1, first + 1);
            first + 2
        },
        StmtView::If { condition, then_block, else_if_blocks, else_block } => {
            let test = TaskView::IfTest { then_block, else_if_blocks, else_block, index: 0 };
            let waiting = vm.with_task(test);
            let scheduled = waiting.with_task(TaskView::Eval(condition));
            lemma_quiet_step(host, start, lines, scheduled);
            let first = lemma_eval(host, waiting, lines, condition, fuel);
            let (w, v) = host.eval(vm.world(lines), condition, fuel)->0;
            let tested = vm.in_world(w);
            assert(waiting.in_world(w).with_value(v) == tested.with_value(v).with_task(test));
            lemma_steps_add(host, ready(start, lines), 1, first);
            if truthy(v) {
                lemma_scheduled_task(tested.with_value(v), test);
                lemma_pushed_value(tested, v);
                let chosen = tested.with_task(TaskView::Block { stmts: then_block, next: 0 });
                lemma_quiet_step(host, tested.with_value(v).with_task(test), w.lines, chosen);
                let second = lemma_block(host, tested, w.lines, then_block, 0, ValueView::Nil, fuel);
                lemma_steps_add(host, ready(start, lines), 1 + first, 1);
                lemma_steps_add(host, ready(start, lines), 2 + first, second);
                first + second + 2
            } else {
                let second = lemma_branches(
                    host,
                    tested,
                    w.lines,
                    then_block,
                    else_if_blocks,
                    0,
                    else_block,
                    v,
                    fuel,
                );
                lemma_steps_add(host, ready(start, lines), 1 + first, second);
                first + second + 1
            }
        },
        StmtView::While { condition, body } => {
            let test = TaskView::WhileTest { condition, body };
            let waiting = vm.with_task(test);
            let scheduled = waiting.with_task(TaskView::Eval(condition));
            lemma_quiet_step(host, start, lines, scheduled);
            let first = lemma_eval(host, waiting, lines, condition, fuel);
            let (w1, v) = host.eval(vm.world(lines), condition, fuel)->0;
            let tested = vm.in_world(w1);
            assert(waiting.in_world(w1).with_value(v) == tested.with_value(v).with_task(test));
            lemma_scheduled_task(tested.with_value(v), test);
            lemma_pushed_value(tested, v);
            lemma_steps_add(host, ready(start, lines), 1, first);
            if truthy(v) {
                // the body runs, its value is dropped, and the loop stands again
                let again = tested.with_task(TaskView::Exec(stmt));
                let dropping = again.with_task(TaskView::Discard);
                let running = dropping.with_task(TaskView::Block { stmts: body, next: 0 });
                lemma_quiet_step(host, tested.with_value(v).with_task(test), w1.lines, running);
                let second = lemma_block(host, dropping, w1.lines, body, 0, ValueView::Nil, fuel);
                let (w2, b) = host.exec_block(w1, body, 0, ValueView::Nil, fuel)->0;
                let ran = vm.in_world(w2);
                assert(dropping.in_world(w2).with_value(b) == ran.with_task(
                    TaskView::Exec(stmt),
                ).with_value(b).with_task(TaskView::Discard));
                lemma_scheduled_task(
                    ran.with_task(TaskView::Exec(stmt)).with_value(b),
                    TaskView::Discard,
                );
                lemma_pushed_value(ran.with_task(TaskView::Exec(stmt)), b);
                lemma_quiet_step(
                    host,
                    ran.with_task(TaskView::Exec(stmt)).with_value(b).with_task(TaskView::Discard),
                    w2.lines,
                    ran.with_task(TaskView::Exec(stmt)),
                );
                let third = lemma_exec(host, ran, w2.lines, stmt, (fuel - 1) as nat);
                lemma_steps_add(host, ready(start, lines), 1 + first, 1);
                lemma_steps_add(host, ready(start, lines), 2 + first, second);
                lemma_steps_add(host, ready(start, lines), 2 + first + second, 1);
                lemma_steps_add(host, ready(start, lines), 3 + first + second, third);
                first + second + third + 3
            } else {
                lemma_quiet_step(host, tested.with_value(v).with_task(test), w1.lines, result);
                lemma_steps_add(host, ready(start, lines), 1 + first, 1);
                first + 2
            }
        },
        StmtView::Repeat { body, condition } => {
            let test = TaskView::RepeatTest { body, condition };
            let waiting = vm.with_task(test);
            let for_test = waiting.with_task(TaskView::Eval(condition));
            let dropping = for_test.with_task(TaskView::Discard);
            let running = dropping.with_task(TaskView::Block { stmts: body, next: 0 });
            lemma_quiet_step(host, start, lines, running);
            // the body runs and its value is dropped
            let first = lemma_block(host, dropping, lines, body, 0, ValueView::Nil, fuel);
            let (w1, b) = host.exec_block(vm.world(lines), body, 0, ValueView::Nil, fuel)->0;
            let ran = for_test.in_world(w1);
            assert(dropping.in_world(w1).with_value(b) == ran.with_value(b).with_task(
                TaskView::Discard,
            ));
            lemma_scheduled_task(ran.with_value(b), TaskView::Discard);
            lemma_pushed_value(ran, b);
            lemma_quiet_step(
                host,
                ran.with_value(b).with_task(TaskView::Discard),
                w1.lines,
                ran,
            );
            // the condition is tested
            assert(ran == waiting.in_world(w1).with_task(TaskView::Eval(condition)));
            let second = lemma_eval(host, waiting.in_world(w1), w1.lines, condition, fuel);
            let (w2, v) = host.eval(w1, condition, fuel)->0;
            let tested = vm.in_world(w2);
            assert(waiting.in_world(w1).in_world(w2).with_value(v) == tested.with_value(
                v,
            ).with_task(test));
            lemma_scheduled_task(tested.with_value(v), test);
            lemma_pushed_value(tested, v);
            lemma_steps_add(host, ready(start, lines), 1, first);
            lemma_steps_add(host, ready(start, lines), 1 + first, 1);
            lemma_steps_add(host, ready(start, lines), 2 + first, second);
            if truthy(v) {
                lemma_quiet_step(host, tested.with_value(v).with_task(test), w2.lines, result);
                lemma_steps_add(host, ready(start, lines), 2 + first + second, 1);
                first + second + 3
            } else {
                lemma_quiet_step(
                    host,
                    tested.with_value(v).with_task(test),
                    w2.lines,
                    tested.with_task(TaskView::Exec(stmt)),
                );
                let third = lemma_exec(host, tested, w2.lines, stmt, (fuel - 1) as nat);
                lemma_steps_add(host, ready(start, lines), 2 + first + second, 1);
                lemma_steps_add(host, ready(start, lines), 3 + first + second, third);
                first + second + third + 3
            }
        },
        StmtView::For { variable, start: from, end, step, body } => {
            lemma_for(host, vm, lines, variable, from, end, step, body, fuel)
        },
        StmtView::Return(Some(values)) => {
            let keep = TaskView::KeepFirst { count: values.len() };
            let waiting = vm.with_task(keep);
            let scheduled = waiting.with_task(TaskView::EvalList { exprs: values, next: 0 });
            lemma_quiet_step(host, start, lines, scheduled);
            let first = lemma_eval_list(host, waiting, lines, values, 0, fuel);
            let (w, vs) = host.eval_list(vm.world(lines), values, 0, fuel)->0;
            let after = vm.in_world(w);
            let loaded = VmView { stack: after.stack + vs, ..after };
            assert((VmView { stack: waiting.stack + vs, ..waiting.in_world(w) })
                == loaded.with_task(keep));
            lemma_scheduled_task(loaded, keep);
            assert(loaded.top_values(vs.len()) =~= vs);
            assert(loaded.dropped_values(vs.len()) == after) by {
                assert(loaded.stack.subrange(0, loaded.stack.len() - vs.len()) =~= after.stack);
            }
            lemma_quiet_step(host, loaded.with_task(keep), w.lines, result);
            lemma_steps_add(host, ready(scheduled, lines), first, 1);
            lemma_steps_add(host, ready(start, lines), 1, first + 1);
            first + 2
        },
        _ => {
            lemma_quiet_step(host, start, lines, result);
            1
        },
    }
}

/// The evaluator does what a numeric `for` loop means: the bounds and the
/// step are evaluated and coerced in order, then the turns run.
pub proof fn lemma_for(
    host: HostModel,
    vm: VmView,
    lines: Seq<Seq<char>>,
    variable: Seq<char>,
    from: ExprView,
    end: ExprView,
    step: Option<ExprView>,
    body: Seq<StmtView>,
    fuel: nat,
) -> (count: nat)
    requires
        host.exec(
            vm.world(lines),
            StmtView::For { variable, start: from, end, step, body },
            fuel,
        ) is Some,
    ensures
        ({
            let stmt = StmtView::For { variable, start: from, end, step, body };
            let (world, value) = host.exec(vm.world(lines), stmt, fuel)->0;
            host.steps(ready(vm.with_task(TaskView::Exec(stmt)), lines), count) == ready(
                vm.in_world(world).with_value(value),
                world.lines,
            )
        }),
    decreases fuel, stmt_size(StmtView::For { variable, start: from, end, step, body }), 0nat,
{
    let stmt = StmtView::For { variable, start: from, end, step, body };
    let zero = Number::spec_zero();
    let one = Number::spec_one();
    let begun = vm.with_task(TaskView::Exec(stmt));
    lemma_scheduled_task(vm, TaskView::Exec(stmt));
    // what is scheduled, from the bottom up
    let init = vm.with_task(TaskView::ForInit { variable, body });
    let stepped = match step {
        Some(e) => init.with_task(TaskView::Coerce { default: one }).with_task(TaskView::Eval(e)),
        None => init.with_task(TaskView::Push(ValueView::Number(one))),
    };
    let for_end = stepped.with_task(TaskView::Coerce { default: zero });
    let ending = for_end.with_task(TaskView::Eval(end));
    let for_start = ending.with_task(TaskView::Coerce { default: zero });
    let scheduled = for_start.with_task(TaskView::Eval(from));
    lemma_quiet_step(host, begun, lines, scheduled);
    // the start
    let n1 = lemma_eval(host, for_start, lines, from, fuel);
    let (w1, first) = host.eval(vm.world(lines), from, fuel)->0;
    let a = host.bound(first, zero);
    assert(for_start.in_world(w1).with_value(first) == ending.in_world(w1).with_value(
        first,
    ).with_task(TaskView::Coerce { default: zero }));
    let n2 = lemma_coerce(host, ending.in_world(w1), w1.lines, first, zero);
    // the end
    let with_start = for_end.in_world(w1).with_value(ValueView::Number(a));
    assert(ending.in_world(w1).with_value(ValueView::Number(a)) == with_start.with_task(
        TaskView::Eval(end),
    ));
    let n3 = lemma_eval(host, with_start, w1.lines, end, fuel);
    let (w2, last) = host.eval(w1, end, fuel)->0;
    let b = host.bound(last, zero);
    let before_end = stepped.in_world(w2).with_value(ValueView::Number(a));
    assert(with_start.in_world(w2).with_value(last) == before_end.with_value(last).with_task(
        TaskView::Coerce { default: zero },
    ));
    let n4 = lemma_coerce(host, before_end, w2.lines, last, zero);
    let with_end = before_end.with_value(ValueView::Number(b));
    lemma_steps_add(host, ready(begun, lines), 1, n1);
    lemma_steps_add(host, ready(begun, lines), 1 + n1, n2);
    lemma_steps_add(host, ready(begun, lines), 1 + n1 + n2, n3);
    lemma_steps_add(host, ready(begun, lines), 1 + n1 + n2 + n3, n4);
    let so_far = 1 + n1 + n2 + n3 + n4;
    assert(host.steps(ready(begun, lines), so_far) == ready(with_end, w2.lines));
    // the step
    match step {
        Some(e) => {
            let for_step = init.in_world(w2).with_value(ValueView::Number(a)).with_value(
                ValueView::Number(b),
            ).with_task(TaskView::Coerce { default: one });
            assert(with_end == for_step.with_task(TaskView::Eval(e)));
            let n5 = lemma_eval(host, for_step, w2.lines, e, fuel);
            let (w3, by) = host.eval(w2, e, fuel)->0;
            let c = host.bound(by, one);
            let loaded = vm.in_world(w3).with_value(ValueView::Number(a)).with_value(
                ValueView::Number(b),
            );
            let before_step = loaded.with_task(TaskView::ForInit { variable, body });
            assert(for_step.in_world(w3).with_value(by) == before_step.with_value(by).with_task(
                TaskView::Coerce { default: one },
            ));
            let n6 = lemma_coerce(host, before_step, w3.lines, by, one);
            assert(before_step.with_value(ValueView::Number(c)) == loaded.with_value(
                ValueView::Number(c),
            ).with_task(TaskView::ForInit { variable, body }));
            let n7 = lemma_for_turns(host, vm.in_world(w3), w3.lines, variable, body, a, b, c, fuel);
            lemma_steps_add(host, ready(begun, lines), so_far, n5);
            lemma_steps_add(host, ready(begun, lines), so_far + n5, n6);
            lemma_steps_add(host, ready(begun, lines), so_far + n5 + n6, n7);
            so_far + n5 + n6 + n7
        },
        None => {
            let loaded = vm.in_world(w2).with_value(ValueView::Number(a)).with_value(
                ValueView::Number(b),
            );
            let before_step = loaded.with_task(TaskView::ForInit { variable, body });
            let push = TaskView::Push(ValueView::Number(one));
            assert(with_end == before_step.with_task(push));
            lemma_scheduled_task(before_step, push);
            assert(before_step.with_value(ValueView::Number(one)) == loaded.with_value(
                ValueView::Number(one),
            ).with_task(TaskView::ForInit { variable, body }));
            lemma_quiet_step(
                host,
                before_step.with_task(push),
                w2.lines,
                before_step.with_value(ValueView::Number(one)),
            );
            let n7 = lemma_for_turns(host, vm.in_world(w2), w2.lines, variable, body, a, b, one, fuel);
            lemma_steps_add(host, ready(begun, lines), so_far, 1);
            lemma_steps_add(host, ready(begun, lines), so_far + 1, n7);
            so_far + 1 + n7
        },
    }
}

/// The turns of a numeric `for` loop, from the start, the end and the step
/// on the stack.
pub proof fn lemma_for_turns(
    host: HostModel,
    vm: VmView,
    lines: Seq<Seq<char>>,
    variable: Seq<char>,
    body: Seq<StmtView>,
    first: Number,
    last: Number,
    step: Number,
    fuel: nat,
) -> (count: nat)
    requires
        host.for_loop(vm.world(lines), variable, body, first, last, step, fuel) is Some,
    ensures
        ({
            let (world, value) = host.for_loop(
                vm.world(lines),
                variable,
                body,
                first,
                last,
                step,
                fuel,
            )->0;
            host.steps(
                ready(
                    vm.with_value(ValueView::Number(first)).with_value(
                        ValueView::Number(last),
                    ).with_value(ValueView::Number(step)).with_task(
                        TaskView::ForInit { variable, body },
                    ),
                    lines,
                ),
                count,
            ) == ready(vm.in_world(world).with_value(value), world.lines)
        }),
    decreases fuel, stmts_size(body, 0) + 2,
{
    let a = ValueView::Number(first);
    let b = ValueView::Number(last);
    let c = ValueView::Number(step);
    let task = TaskView::ForInit { variable, body };
    let loaded = vm.with_value(a).with_value(b).with_value(c);
    lemma_scheduled_task(loaded, task);
    lemma_pushed_value(vm.with_value(a).with_value(b), c);
    lemma_pushed_value(vm.with_value(a), b);
    lemma_pushed_value(vm, a);
    let looping = vm.with_value(a).with_task(
        TaskView::ForLoop { variable, body, end: last, step },
    );
    lemma_quiet_step(host, loaded.with_task(task), lines, looping);
    let rest = lemma_for_loop(host, vm, lines, variable, body, first, last, step, fuel);
    lemma_steps_add(host, ready(loaded.with_task(task), lines), 1, rest);
    rest + 1
}

/// The value that a piece of program has, where it has one.
pub open spec fn value_meant(meaning: Option<(World, ValueView)>) -> ValueView {
    match meaning {
        Some((_, value)) => value,
        None => ValueView::Nil,
    }
}

/// The world that a piece of program leaves, where it leaves one.
pub open spec fn world_meant(meaning: Option<(World, ValueView)>, before: World) -> World {
    match meaning {
        Some((world, _)) => world,
        None => before,
    }
}

/// `break` means nothing: it leaves the world as it is, and the statements
/// behind it in its block run as if it were not there but for its value,
/// nil. A loop goes on with its next turn.
pub proof fn lemma_break_means_nothing(
    host: HostModel,
    world: World,
    stmts: Seq<StmtView>,
    from: nat,
    last: ValueView,
    fuel: nat,
)
    requires
        from < stmts.len(),
        stmts[from as int] == StmtView::Break,
    ensures
        host.exec(world, StmtView::Break, fuel) == Some((world, ValueView::Nil)),
        host.exec_block(world, stmts, from, last, fuel) == host.exec_block(
            world,
            stmts,
            from + 1,
            ValueView::Nil,
            fuel,
        ),
{
}

/// `return` ends nothing: the statements behind it in its block run, and the
/// value of the block is that of its last statement.
pub proof fn lemma_return_means_its_value(
    host: HostModel,
    world: World,
    stmts: Seq<StmtView>,
    from: nat,
    last: ValueView,
    fuel: nat,
)
    requires
        from < stmts.len(),
        stmts[from as int] == StmtView::Return(None),
    ensures
        host.exec_block(world, stmts, from, last, fuel) == host.exec_block(
            world,
            stmts,
            from + 1,
            ValueView::Nil,
            fuel,
        ),
{
    assert(host.exec(world, StmtView::Return(None), fuel) == Some((world, ValueView::Nil)));
}

/// A call of a name that is bound to no function means nil, once its
/// arguments are evaluated: it is no error.
pub proof fn lemma_call_of_no_function_means_nil(
    host: HostModel,
    world: World,
    name: Seq<char>,
    arguments: Seq<ExprView>,
    fuel: nat,
)
    requires
        fuel > 0,
        !(world.variable(name) is Function),
        host.eval_list(world, arguments, 0, fuel) is Some,
    ensures
        host.eval(world, ExprView::FunctionCall { name, arguments }, fuel) == Some(
            (
                match host.eval_list(world, arguments, 0, fuel) {
                    Some((after, _)) => after,
                    None => world,
                },
                ValueView::Nil,
            ),
        ),
{
    let (after, args) = host.eval_list(world, arguments, 0, fuel)->0;
    assert(host.call(after, world.variable(name), args, (fuel - 1) as nat) == Some(
        (after, ValueView::Nil),
    ));
}

/// A chain of binary operators means what it means from the left: `a op b
/// op' c` is `(a op b) op' c` whatever the operators are.
pub proof fn lemma_chain_means_left_first(
    host: HostModel,
    world: World,
    a: ExprView,
    first: BinaryOperator,
    b: ExprView,
    second: BinaryOperator,
    c: ExprView,
    fuel: nat,
)
    requires
        is_plain(a),
        is_plain(b),
        is_plain(c),
    ensures
        ({
            let chain = ExprView::BinaryOp {
                left: Box::new(
                    ExprView::BinaryOp { left: Box::new(a), operator: first, right: Box::new(b) },
                ),
                operator: second,
                right: Box::new(c),
            };
            host.eval(world, chain, fuel) == Some(
                (
                    world,
                    host.binary(
                        second,
                        host.binary(
                            first,
                            value_meant(host.eval(world, a, fuel)),
                            value_meant(host.eval(world, b, fuel)),
                        ),
                        value_meant(host.eval(world, c, fuel)),
                    ),
                ),
            )
        }),
{
    lemma_plain_expressions_change_nothing(host, world, a, fuel);
    lemma_plain_expressions_change_nothing(host, world, b, fuel);
    lemma_plain_expressions_change_nothing(host, world, c, fuel);
    let inner = ExprView::BinaryOp { left: Box::new(a), operator: first, right: Box::new(b) };
    let va = value_meant(host.eval(world, a, fuel));
    let vb = value_meant(host.eval(world, b, fuel));
    assert(host.eval(world, inner, fuel) == Some((world, host.binary(first, va, vb))));
}

/// An expression that holds no call and builds no table always has a value
/// and leaves the world as it is.
pub proof fn lemma_plain_expressions_change_nothing(
    host: HostModel,
    world: World,
    expr: ExprView,
    fuel: nat,
)
    requires
        is_plain(expr),
    ensures
        host.eval(world, expr, fuel) is Some,
        world_meant(host.eval(world, expr, fuel), world) == world,
    decreases expr,
{
    match expr {
        ExprView::UnaryOp { operator, operand } => {
            lemma_plain_expressions_change_nothing(host, world, *operand, fuel);
        },
        ExprView::BinaryOp { left, operator, right } => {
            lemma_plain_expressions_change_nothing(host, world, *left, fuel);
            lemma_plain_expressions_change_nothing(host, world, *right, fuel);
        },
        ExprView::TableAccess { table, key } => {
            lemma_plain_expressions_change_nothing(host, world, *table, fuel);
            lemma_plain_expressions_change_nothing(host, world, *key, fuel);
        },
        _ => {},
    }
}

/// The length of a table that is built from one field is one, whatever the
/// field is: a positional value or a value under a name.
pub proof fn lemma_one_field_means_length_one(
    host: HostModel,
    world: World,
    field: TableFieldView,
    fuel: nat,
)
    requires
        host.eval(world, field_expr(field), fuel) is Some,
    ensures
        host.eval(
            world,
            ExprView::UnaryOp {
                operator: UnaryOperator::Length,
                operand: Box::new(ExprView::TableConstructor { fields: seq![field] }),
            },
            fuel,
        ) == Some(
            (
                world_meant(host.eval(world, field_expr(field), fuel), world),
                ValueView::Number(Number::spec_one()),
            ),
        ),
{
    let fields = seq![field];
    let (w, v) = host.eval(world, field_expr(field), fuel)->0;
    let key = field_key(field, Seq::empty());
    let pairs = table_set(Seq::empty(), key, v);
    crate::vm::lemma_one_entry_has_length_one(key, v);
    assert(host.build(w, fields, 1, pairs, fuel) == Some((w, pairs)));
    assert(host.build(world, fields, 0, Seq::empty(), fuel) == Some((w, pairs)));
    let table = ExprView::TableConstructor { fields };
    assert(host.eval(world, table, fuel) == Some((w, ValueView::Table(pairs))));
    assert(host.unary(UnaryOperator::Length, ValueView::Table(pairs)) == ValueView::Number(
        Number::spec_one(),
    ));
}

/// Equality means equality without coercion, and of functions and tables
/// inequality: comparing a number with a string, or a function with any
/// value, means false.
pub proof fn lemma_equality_means_no_coercion(
    host: HostModel,
    world: World,
    left: ExprView,
    right: ExprView,
    fuel: nat,
)
    requires
        is_plain(left),
        is_plain(right),
        ({
            let l = value_meant(host.eval(world, left, fuel));
            let r = value_meant(host.eval(world, right, fuel));
            crate::value::kind(l) != crate::value::kind(r) || l is Function || l is Table
        }),
    ensures
        host.eval(
            world,
            ExprView::BinaryOp {
                left: Box::new(left),
                operator: BinaryOperator::Equal,
                right: Box::new(right),
            },
            fuel,
        ) == Some((world, ValueView::Boolean(false))),
{
    lemma_plain_expressions_change_nothing(host, world, left, fuel);
    lemma_plain_expressions_change_nothing(host, world, right, fuel);
}

/// Whether `after` can come of `before` by running a piece of program: the
/// same call frames are open, none but the innermost has changed, and what
/// was printed is still there.
pub open spec fn follows(before: World, after: World) -> bool {
    &&& after.frames.len() == before.frames.len()
    &&& forall|i: int| 0 <= i < before.frames.len() - 1 ==> after.frames[i] == before.frames[i]
    &&& before.lines.len() <= after.lines.len()
    &&& after.lines.subrange(0, before.lines.len() as int) == before.lines
}

/// Whether `after` can come of `before` by a call: the call frames are as
/// they were, every one of them, and what was printed is still there.
pub open spec fn returns_to(before: World, after: World) -> bool {
    &&& after.frames == before.frames
    &&& before.lines.len() <= after.lines.len()
    &&& after.lines.subrange(0, before.lines.len() as int) == before.lines
}

/// One thing can follow another.
pub proof fn lemma_follows_on(first: World, second: World, third: World)
    requires
        follows(first, second),
        follows(second, third),
    ensures
        follows(first, third),
{
    assert(third.lines.subrange(0, first.lines.len() as int) =~= second.lines.subrange(
        0,
        first.lines.len() as int,
    ));
}

/// Call frames are opened and closed in pairs. An expression leaves open the
/// frames that were open, and changes none but the innermost; what was
/// printed stays printed.
pub proof fn lemma_eval_keeps_frames(host: HostModel, world: World, expr: ExprView, fuel: nat)
    requires
        host.eval(world, expr, fuel) is Some,
    ensures
        follows(world, world_meant(host.eval(world, expr, fuel), world)),
    decreases fuel, expr_size(expr),
{
    assert(world.lines.subrange(0, world.lines.len() as int) =~= world.lines);
    match expr {
        ExprView::UnaryOp { operator, operand } => {
            lemma_eval_keeps_frames(host, world, *operand, fuel);
        },
        ExprView::BinaryOp { left, operator, right } => {
            lemma_eval_keeps_frames(host, world, *left, fuel);
            let w1 = world_meant(host.eval(world, *left, fuel), world);
            lemma_eval_keeps_frames(host, w1, *right, fuel);
            lemma_follows_on(world, w1, world_meant(host.eval(w1, *right, fuel), w1));
        },
        ExprView::TableAccess { table, key } => {
            lemma_eval_keeps_frames(host, world, *table, fuel);
            let w1 = world_meant(host.eval(world, *table, fuel), world);
            lemma_eval_keeps_frames(host, w1, *key, fuel);
            lemma_follows_on(world, w1, world_meant(host.eval(w1, *key, fuel), w1));
        },
        ExprView::FunctionCall { name, arguments } => {
            lemma_list_keeps_frames(host, world, arguments, 0, fuel);
            let (w, args) = host.eval_list(world, arguments, 0, fuel)->0;
            let callee = world.variable(name);
            lemma_call_keeps_frames(host, w, callee, args, (fuel - 1) as nat);
            let after = world_meant(host.call(w, callee, args, (fuel - 1) as nat), w);
            lemma_follows_on(world, w, after);
        },
        ExprView::TableConstructor { fields } => {
            lemma_build_keeps_frames(host, world, fields, 0, Seq::empty(), fuel);
        },
        _ => {},
    }
}

/// A list of expressions leaves the call frames as an expression does.
pub proof fn lemma_list_keeps_frames(
    host: HostModel,
    world: World,
    exprs: Seq<ExprView>,
    from: nat,
    fuel: nat,
)
    requires
        host.eval_list(world, exprs, from, fuel) is Some,
    ensures
        ({
            let (after, values) = host.eval_list(world, exprs, from, fuel)->0;
            follows(world, after)
        }),
    decreases fuel, exprs_size(exprs, from),
{
    assert(world.lines.subrange(0, world.lines.len() as int) =~= world.lines);
    if from < exprs.len() {
        lemma_eval_keeps_frames(host, world, exprs[from as int], fuel);
        let w1 = world_meant(host.eval(world, exprs[from as int], fuel), world);
        lemma_list_keeps_frames(host, w1, exprs, from + 1, fuel);
        let (w2, values) = host.eval_list(w1, exprs, from + 1, fuel)->0;
        lemma_follows_on(world, w1, w2);
    }
}

/// A table constructor leaves the call frames as an expression does.
pub proof fn lemma_build_keeps_frames(
    host: HostModel,
    world: World,
    fields: Seq<TableFieldView>,
    from: nat,
    pairs: Seq<(ValueView, ValueView)>,
    fuel: nat,
)
    requires
        host.build(world, fields, from, pairs, fuel) is Some,
    ensures
        ({
            let (after, table) = host.build(world, fields, from, pairs, fuel)->0;
            follows(world, after)
        }),
    decreases fuel, fields_size(fields, from),
{
    assert(world.lines.subrange(0, world.lines.len() as int) =~= world.lines);
    if from < fields.len() {
        let field = fields[from as int];
        lemma_eval_keeps_frames(host, world, field_expr(field), fuel);
        let (w1, v) = host.eval(world, field_expr(field), fuel)->0;
        let entered = table_set(pairs, field_key(field, pairs), v);
        lemma_build_keeps_frames(host, w1, fields, from + 1, entered, fuel);
        let (w2, table) = host.build(w1, fields, from + 1, entered, fuel)->0;
        lemma_follows_on(world, w1, w2);
    }
}

/// A call leaves every call frame as it was: the frame that it opens is
/// closed when its body has run, whatever the body does, and the frames of
/// the callers can be read by the body but not written.
pub proof fn lemma_call_keeps_frames(
    host: HostModel,
    world: World,
    callee: ValueView,
    args: Seq<ValueView>,
    fuel: nat,
)
    requires
        host.call(world, callee, args, fuel) is Some,
    ensures
        returns_to(world, world_meant(host.call(world, callee, args, fuel), world)),
    decreases fuel, callee_size(callee),
{
    assert(world.lines.subrange(0, world.lines.len() as int) =~= world.lines);
    match callee {
        ValueView::Function(FunctionView::Native(builtin)) => {
            let (after, value) = host.builtin(world, builtin, args);
            assert(after.lines.subrange(0, world.lines.len() as int) =~= world.lines);
        },
        ValueView::Function(FunctionView::UserDefined { parameters, body, closure }) => {
            let opened = World {
                frames: world.frames.push(bind_all(Seq::empty(), parameters, args, 0)),
                ..world
            };
            lemma_block_keeps_frames(host, opened, body, 0, ValueView::Nil, fuel);
            let (ran, value) = host.exec_block(opened, body, 0, ValueView::Nil, fuel)->0;
            assert(ran.frames.drop_last() =~= world.frames);
        },
        _ => {},
    }
}

/// A block leaves the call frames as a statement does.
pub proof fn lemma_block_keeps_frames(
    host: HostModel,
    world: World,
    stmts: Seq<StmtView>,
    from: nat,
    last: ValueView,
    fuel: nat,
)
    requires
        host.exec_block(world, stmts, from, last, fuel) is Some,
    ensures
        follows(world, world_meant(host.exec_block(world, stmts, from, last, fuel), world)),
    decreases fuel, stmts_size(stmts, from),
{
    assert(world.lines.subrange(0, world.lines.len() as int) =~= world.lines);
    if from < stmts.len() {
        lemma_exec_keeps_frames(host, world, stmts[from as int], fuel);
        let (w1, v) = host.exec(world, stmts[from as int], fuel)->0;
        lemma_block_keeps_frames(host, w1, stmts, from + 1, v, fuel);
        lemma_follows_on(
            world,
            w1,
            world_meant(host.exec_block(w1, stmts, from + 1, v, fuel), w1),
        );
    }
}

/// The branches of a conditional leave the call frames as a statement does.
pub proof fn lemma_branches_keep_frames(
    host: HostModel,
    world: World,
    branches: Seq<(ExprView, Seq<StmtView>)>,
    from: nat,
    else_block: Option<Seq<StmtView>>,
    fuel: nat,
)
    requires
        host.branches(world, branches, from, else_block, fuel) is Some,
    ensures
        follows(world, world_meant(host.branches(world, branches, from, else_block, fuel), world)),
    decreases fuel, branches_size(branches, from) + block_size(else_block) + 1,
{
    assert(world.lines.subrange(0, world.lines.len() as int) =~= world.lines);
    if from < branches.len() {
        let condition = branches[from as int].0;
        lemma_eval_keeps_frames(host, world, condition, fuel);
        let (w1, v) = host.eval(world, condition, fuel)->0;
        if truthy(v) {
            lemma_block_keeps_frames(host, w1, branches[from as int].1, 0, ValueView::Nil, fuel);
        } else {
            lemma_branches_keep_frames(host, w1, branches, from + 1, else_block, fuel);
        }
        lemma_follows_on(
            world,
            w1,
            world_meant(host.branches(world, branches, from, else_block, fuel), world),
        );
    } else {
        match else_block {
            Some(block) => {
                lemma_block_keeps_frames(host, world, block, 0, ValueView::Nil, fuel);
            },
            None => {},
        }
    }
}

/// The turns of a numeric `for` loop leave the call frames as a statement
/// does.
pub proof fn lemma_turns_keep_frames(
    host: HostModel,
    world: World,
    variable: Seq<char>,
    body: Seq<StmtView>,
    current: Number,
    end: Number,
    step: Number,
    fuel: nat,
)
    requires
        host.for_loop(world, variable, body, current, end, step, fuel) is Some,
    ensures
        follows(
            world,
            world_meant(host.for_loop(world, variable, body, current, end, step, fuel), world),
        ),
    decreases fuel, stmts_size(body, 0) + 1,
{
    assert(world.lines.subrange(0, world.lines.len() as int) =~= world.lines);
    if for_continues(current, end, step) {
        let bound = world.with_locals(
            bind(world.frames.last(), variable, ValueView::Number(current)),
        );
        assert(follows(world, bound));
        lemma_block_keeps_frames(host, bound, body, 0, ValueView::Nil, fuel);
        let (w1, v) = host.exec_block(bound, body, 0, ValueView::Nil, fuel)->0;
        lemma_follows_on(world, bound, w1);
        let next = (host.compute)(BinaryOperator::Add, current, step);
        lemma_turns_keep_frames(host, w1, variable, body, next, end, step, (fuel - 1) as nat);
        lemma_follows_on(
            world,
            w1,
            world_meant(
                host.for_loop(w1, variable, body, next, end, step, (fuel - 1) as nat),
                w1,
            ),
        );
    }
}

/// A statement leaves open the call frames that were open, and changes none
/// but the innermost; what was printed stays printed.
pub proof fn lemma_exec_keeps_frames(host: HostModel, world: World, stmt: StmtView, fuel: nat)
    requires
        host.exec(world, stmt, fuel) is Some,
    ensures
        follows(world, world_meant(host.exec(world, stmt, fuel), world)),
    decreases fuel, stmt_size(stmt),
{
    assert(world.lines.subrange(0, world.lines.len() as int) =~= world.lines);
    let after = world_meant(host.exec(world, stmt, fuel), world);
    match stmt {
        StmtView::Expr(e) => {
            lemma_eval_keeps_frames(host, world, e, fuel);
        },
        StmtView::Assignment { variables, values } => {
            lemma_list_keeps_frames(host, world, values, 0, fuel);
        },
        StmtView::LocalAssignment { variables, values } => {
            lemma_list_keeps_frames(host, world, values, 0, fuel);
            let (w, vs) = host.eval_list(world, values, 0, fuel)->0;
            assert(after.lines.subrange(0, w.lines.len() as int) =~= w.lines);
            assert(follows(w, after));
            lemma_follows_on(world, w, after);
        },
        StmtView::If { condition, then_block, else_if_blocks, else_block } => {
            lemma_eval_keeps_frames(host, world, condition, fuel);
            let (w1, v) = host.eval(world, condition, fuel)->0;
            if truthy(v) {
                lemma_block_keeps_frames(host, w1, then_block, 0, ValueView::Nil, fuel);
            } else {
                lemma_branches_keep_frames(host, w1, else_if_blocks, 0, else_block, fuel);
            }
            lemma_follows_on(world, w1, after);
        },
        StmtView::While { condition, body } => {
            lemma_eval_keeps_frames(host, world, condition, fuel);
            let (w1, v) = host.eval(world, condition, fuel)->0;
            if truthy(v) {
                lemma_block_keeps_frames(host, w1, body, 0, ValueView::Nil, fuel);
                let (w2, b) = host.exec_block(w1, body, 0, ValueView::Nil, fuel)->0;
                lemma_follows_on(world, w1, w2);
                lemma_exec_keeps_frames(host, w2, stmt, (fuel - 1) as nat);
                lemma_follows_on(world, w2, after);
            }
        },
        StmtView::Repeat { body, condition } => {
            lemma_block_keeps_frames(host, world, body, 0, ValueView::Nil, fuel);
            let (w1, b) = host.exec_block(world, body, 0, ValueView::Nil, fuel)->0;
            lemma_eval_keeps_frames(host, w1, condition, fuel);
            let (w2, v) = host.eval(w1, condition, fuel)->0;
            lemma_follows_on(world, w1, w2);
            if !truthy(v) {
                lemma_exec_keeps_frames(host, w2, stmt, (fuel - 1) as nat);
                lemma_follows_on(world, w2, after);
            }
        },
        StmtView::For { variable, start, end, step, body } => {
            lemma_eval_keeps_frames(host, world, start, fuel);
            let (w1, first) = host.eval(world, start, fuel)->0;
            lemma_eval_keeps_frames(host, w1, end, fuel);
            let (w2, last) = host.eval(w1, end, fuel)->0;
            lemma_follows_on(world, w1, w2);
            let a = host.bound(first, Number::spec_zero());
            let b = host.bound(last, Number::spec_zero());
            match step {
                Some(e) => {
                    lemma_eval_keeps_frames(host, w2, e, fuel);
                    let (w3, by) = host.eval(w2, e, fuel)->0;
                    lemma_follows_on(world, w2, w3);
                    let c = host.bound(by, Number::spec_one());
                    lemma_turns_keep_frames(host, w3, variable, body, a, b, c, fuel);
                    lemma_follows_on(world, w3, after);
                },
                None => {
                    lemma_turns_keep_frames(
                        host,
                        w2,
                        variable,
                        body,
                        a,
                        b,
                        Number::spec_one(),
                        fuel,
                    );
                    lemma_follows_on(world, w2, after);
                },
            }
        },
        StmtView::Return(Some(values)) => {
            lemma_list_keeps_frames(host, world, values, 0, fuel);
        },
        _ => {},
    }
}

/// A program that starts with no call frame open ends with none open.
pub proof fn lemma_run_closes_its_frames(
    host: HostModel,
    world: World,
    stmts: Seq<StmtView>,
    fuel: nat,
)
    requires
        world.frames.len() == 0,
        host.run(world, stmts, fuel) is Some,
    ensures
        world_meant(host.run(world, stmts, fuel), world).frames.len() == 0,
{
    lemma_block_keeps_frames(host, world, stmts, 0, ValueView::Nil, fuel);
}

/// An evaluator that is given the statements of a program and stepped with
/// its host answering does what the program means. If the program ends, the
/// evaluator gets there in finitely many steps, of which none misses a call
/// frame: it has then printed what the program prints, its global table is
/// the one that the program leaves, no call frame is open, nothing is left
/// to do, and its next step finishes with the value of the program.
pub proof fn lemma_execute(
    host: HostModel,
    globals: Seq<(Seq<char>, ValueView)>,
    lines: Seq<Seq<char>>,
    stmts: Seq<StmtView>,
    fuel: nat,
) -> (count: nat)
    requires
        host.run(World { globals, frames: Seq::empty(), lines }, stmts, fuel) is Some,
    ensures
        ({
            let before = World { globals, frames: Seq::empty(), lines };
            let (world, value) = host.run(before, stmts, fuel)->0;
            let end = host.steps(ready(loaded(globals, stmts), lines), count);
            &&& end.lines == world.lines
            &&& end.reply == ReplyView::Nothing
            &&& end.vm == (VmView {
                globals: world.globals,
                stack: seq![value],
                frames: Seq::empty(),
                tasks: Seq::empty(),
            })
            &&& !end.vm.frame_missing()
            &&& end.vm.step(end.reply) == (
                VmView {
                    globals: world.globals,
                    stack: Seq::empty(),
                    frames: Seq::empty(),
                    tasks: Seq::empty(),
                },
                StatusView::Finished(value),
            )
        }),
{
    let before = World { globals, frames: Seq::empty(), lines };
    let start = VmView { globals, stack: Seq::empty(), frames: Seq::empty(), tasks: Seq::empty() };
    let task = TaskView::Block { stmts, next: 0 };
    assert(start.with_task(task) == loaded(globals, stmts)) by {
        assert(start.tasks.push(task) =~= seq![task]);
    }
    assert(start.world(lines) == before);
    let count = lemma_block(host, start, lines, stmts, 0, ValueView::Nil, fuel);
    lemma_run_closes_its_frames(host, before, stmts, fuel);
    let (world, value) = host.run(before, stmts, fuel)->0;
    let end = start.in_world(world).with_value(value);
    assert(world.frames =~= Seq::empty());
    assert(end.stack =~= seq![value]);
    assert(end.stack.drop_last() =~= Seq::empty());
    count
}

} // verus!
