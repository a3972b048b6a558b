//! Values and operators.
//!
//! An operator is applied to values by one of the methods of [`Value`]. Where
//! the result needs the host, to read a string as a number, to write a number
//! as text or to compute with doubles, the method says so in its
//! [`Outcome`], and exactly what the host is to do.

use crate::ast::{copy_names, copy_stmts, names_view, stmts_view, BinaryOperator, Stmt, StmtView};
use crate::number::Number;
use crate::text::{same_text, share};
use std::rc::Rc;
use vstd::prelude::*;
use vstd::std_specs::cmp::PartialEqSpecImpl;
use vstd::string::StringExecFns;

verus! {

/// The functions that every evaluator starts with.
#[derive(Debug, Clone, Copy, PartialEq, Eq, Structural)]
pub enum Builtin {
    /// `print(args...)`: writes its arguments, as text and joined by tabs, as
    /// one line; gives nil.
    Print,
    /// `type(v)`: the name of the type of its one argument.
    Type,
    /// `tonumber(v)`: the numeric value of its first argument, or nil.
    ToNumber,
    /// `tostring(v)`: the text of its first argument.
    ToString,
}

/// A function value: a builtin, or a user-defined function with its
/// parameter names, its body, and the bindings captured where it was defined.
///
/// The captured bindings are recorded and never read: the free variables of
/// a function that runs are looked up in the call frames that are open at the
/// time of the call, and then in the global table.
#[derive(Debug)]
pub enum Function {
    Native(Builtin),
    UserDefined { parameters: Vec<String>, body: Vec<Stmt>, closure: Vec<(String, Value)> },
}

/// A runtime value.
#[derive(Debug)]
pub enum Value {
    Nil,
    Boolean(bool),
    Number(Number),
    String(String),
    /// A table: key and value pairs, shared by every holder of the value. No
    /// two pairs have equal keys, as far as keys can be equal at all.
    Table(Rc<Vec<(Value, Value)>>),
    Function(Function),
}

/// The mathematical value of a [`Function`].
pub enum FunctionView {
    Native(Builtin),
    UserDefined {
        parameters: Seq<Seq<char>>,
        body: Seq<StmtView>,
        closure: Seq<(Seq<char>, ValueView)>,
    },
}

/// The mathematical value of a [`Value`].
pub enum ValueView {
    Nil,
    Boolean(bool),
    Number(Number),
    String(Seq<char>),
    Table(Seq<(ValueView, ValueView)>),
    Function(FunctionView),
}

/// The views of the pairs of a table.
pub open spec fn pairs_view(pairs: &Vec<(Value, Value)>) -> Seq<(ValueView, ValueView)>
    decreases pairs,
{
    Seq::new(
        pairs.len() as nat,
        |i: int|
            if 0 <= i < pairs.len() {
                (pairs[i].0.model(), pairs[i].1.model())
            } else {
                (ValueView::Nil, ValueView::Nil)
            },
    )
}

/// The views of a list of bindings of names to values.
pub open spec fn scope_view(scope: &Vec<(String, Value)>) -> Seq<(Seq<char>, ValueView)>
    decreases scope,
{
    Seq::new(
        scope.len() as nat,
        |i: int|
            if 0 <= i < scope.len() {
                (scope[i].0@, scope[i].1.model())
            } else {
                (Seq::empty(), ValueView::Nil)
            },
    )
}

/// The views of a list of values.
pub open spec fn values_view(values: &Vec<Value>) -> Seq<ValueView> {
    Seq::new(values.len() as nat, |i: int| values[i].model())
}

impl Function {
/// The mathematical value of the function.
    pub open spec fn model(&self) -> FunctionView
        decreases self,
    {
        match self {
            Function::Native(builtin) => FunctionView::Native(*builtin),
            Function::UserDefined { parameters, body, closure } => FunctionView::UserDefined {
                parameters: names_view(parameters),
                body: stmts_view(body),
                closure: scope_view(closure),
            },
        }
    }
}

impl Value {
/// The mathematical value of the value.
    pub open spec fn model(&self) -> ValueView
        decreases self,
    {
        match self {
            Value::Nil => ValueView::Nil,
            Value::Boolean(b) => ValueView::Boolean(*b),
            Value::Number(n) => ValueView::Number(*n),
            Value::String(s) => ValueView::String(s@),
            Value::Table(pairs) => ValueView::Table(pairs_view(&**pairs)),
            Value::Function(f) => ValueView::Function(f.model()),
        }
    }
}

impl View for Function {
    type V = FunctionView;

    open spec fn view(&self) -> FunctionView {
        self.model()
    }
}

impl View for Value {
    type V = ValueView;

    open spec fn view(&self) -> ValueView {
        self.model()
    }
}

/// A copy of a list of bindings.
pub fn copy_scope(scope: &Vec<(String, Value)>) -> (copy: Vec<(String, Value)>)
    ensures
        scope_view(&copy) == scope_view(scope),
    decreases scope,
{
    let mut copy: Vec<(String, Value)> = Vec::new();
    let mut i: usize = 0;
    while i < scope.len()
        invariant
            i <= scope.len(),
            copy.len() == i,
            forall|j: int| 0 <= j < i ==> copy[j].0@ == scope[j].0@ && copy[j].1@ == scope[j].1@,
        decreases scope.len() - i,
    {
        let binding = &scope[i];
        copy.push((binding.0.clone(), copy_value(&binding.1)));
        i += 1;
    }
    assert(scope_view(&copy) =~= scope_view(scope));
    copy
}

/// A copy of a value. A table is not copied: the copy shares it.
pub fn copy_value(value: &Value) -> (copy: Value)
    ensures
        copy@ == value@,
    decreases value,
{
    match value {
        Value::Nil => Value::Nil,
        Value::Boolean(b) => Value::Boolean(*b),
        Value::Number(n) => Value::Number(*n),
        Value::String(s) => Value::String(s.clone()),
        Value::Table(pairs) => Value::Table(share(pairs)),
        Value::Function(f) => match f {
            Function::Native(builtin) => Value::Function(Function::Native(*builtin)),
            Function::UserDefined { parameters, body, closure } => Value::Function(
                Function::UserDefined {
                    parameters: copy_names(parameters),
                    body: copy_stmts(body),
                    closure: copy_scope(closure),
                },
            ),
        },
    }
}

impl Clone for Value {
    fn clone(&self) -> (copy: Value)
        ensures
            copy@ == self@,
    {
        copy_value(self)
    }
}

/// Whether a value counts as true: every value but nil and false does.
pub open spec fn truthy(value: ValueView) -> bool {
    match value {
        ValueView::Nil => false,
        ValueView::Boolean(b) => b,
        _ => true,
    }
}

/// Equality of values. Nil, booleans, numbers and strings are equal to values
/// of the same type with the same content, numbers as IEEE 754 has it. A
/// table or a function is equal to nothing, not even to itself.
pub open spec fn raw_equal(left: ValueView, right: ValueView) -> bool {
    match (left, right) {
        (ValueView::Nil, ValueView::Nil) => true,
        (ValueView::Boolean(a), ValueView::Boolean(b)) => a == b,
        (ValueView::Number(a), ValueView::Number(b)) => a.same(b),
        (ValueView::String(a), ValueView::String(b)) => a == b,
        _ => false,
    }
}

/// The name of the type of a value.
pub open spec fn name_of_type(value: ValueView) -> Seq<char> {
    match value {
        ValueView::Nil => "nil"@,
        ValueView::Boolean(_) => "boolean"@,
        ValueView::Number(_) => "number"@,
        ValueView::String(_) => "string"@,
        ValueView::Table(_) => "table"@,
        ValueView::Function(_) => "function"@,
    }
}

/// What is known of the numeric value of a value before the host is asked.
#[derive(Debug)]
pub enum Coercion {
    /// The value has this numeric value.
    Number(Number),
    /// The value is a string: its numeric value is what the host reads from
    /// this text, if it reads a number from it.
    Text(String),
    /// The value has no numeric value.
    Absent,
}

/// The mathematical value of a [`Coercion`].
pub enum CoercionView {
    Number(Number),
    Text(Seq<char>),
    Absent,
}

impl View for Coercion {
    type V = CoercionView;

    open spec fn view(&self) -> CoercionView {
        match self {
            Coercion::Number(n) => CoercionView::Number(*n),
            Coercion::Text(s) => CoercionView::Text(s@),
            Coercion::Absent => CoercionView::Absent,
        }
    }
}

/// The numeric value of a value: a number is itself, true is 1 and false is
/// 0, a string is what its text reads as, and nothing else has one.
pub open spec fn coercion(value: ValueView) -> CoercionView {
    match value {
        ValueView::Number(n) => CoercionView::Number(n),
        ValueView::String(s) => CoercionView::Text(s),
        ValueView::Boolean(b) => CoercionView::Number(
            if b {
                Number::spec_one()
            } else {
                Number::spec_zero()
            },
        ),
        _ => CoercionView::Absent,
    }
}

/// What is known of the text of a value before the host is asked.
#[derive(Debug)]
pub enum Rendering {
    /// The value has this text.
    Text(String),
    /// The value is a number: its text is what the host writes for it.
    Number(Number),
}

/// The mathematical value of a [`Rendering`].
pub enum RenderingView {
    Text(Seq<char>),
    Number(Number),
}

impl View for Rendering {
    type V = RenderingView;

    open spec fn view(&self) -> RenderingView {
        match self {
            Rendering::Text(s) => RenderingView::Text(s@),
            Rendering::Number(n) => RenderingView::Number(*n),
        }
    }
}

/// The text of a value: `nil`, `true` or `false`, the text of a string, the
/// fixed words `table` and `function`; the text of a number is the host's.
pub open spec fn rendering(value: ValueView) -> RenderingView {
    match value {
        ValueView::Nil => RenderingView::Text("nil"@),
        ValueView::Boolean(b) => RenderingView::Text(
            if b {
                "true"@
            } else {
                "false"@
            },
        ),
        ValueView::Number(n) => RenderingView::Number(n),
        ValueView::String(s) => RenderingView::Text(s),
        ValueView::Table(_) => RenderingView::Text("table"@),
        ValueView::Function(_) => RenderingView::Text("function"@),
    }
}

/// What an operation on values comes to: its result, or what the host has to
/// do before there is one.
#[derive(Debug)]
pub enum Outcome {
    /// The result.
    Done(Value),
    /// Operand `operand` (0 for the first) is a string that has to be read as
    /// a number. The operation is to be tried again with the number that the
    /// host reads in its place, or with nil if the host reads none.
    Parse { operand: usize, text: String },
    /// Operand `operand` is a number that has to be written as text. The
    /// operation is to be tried again with that text in its place.
    Format { operand: usize, number: Number },
    /// Both operands have numeric values: the result is the number that the
    /// host computes from them.
    Arithmetic { operator: BinaryOperator, left: Number, right: Number },
}

/// The mathematical value of an [`Outcome`].
#[allow(inconsistent_fields)]
pub enum OutcomeView {
    Done(ValueView),
    Parse { operand: usize, text: Seq<char> },
    Format { operand: usize, number: Number },
    Arithmetic { operator: BinaryOperator, left: Number, right: Number },
}

impl View for Outcome {
    type V = OutcomeView;

    open spec fn view(&self) -> OutcomeView {
        match self {
            Outcome::Done(v) => OutcomeView::Done(v@),
            Outcome::Parse { operand, text } => OutcomeView::Parse {
                operand: *operand,
                text: text@,
            },
            Outcome::Format { operand, number } => OutcomeView::Format {
                operand: *operand,
                number: *number,
            },
            Outcome::Arithmetic { operator, left, right } => OutcomeView::Arithmetic {
                operator: *operator,
                left: *left,
                right: *right,
            },
        }
    }
}

/// Whether an operator is one of the six that compute a number from two
/// numbers: `+ - * / % ^`.
pub open spec fn is_arithmetic(operator: BinaryOperator) -> bool {
    operator == BinaryOperator::Add || operator == BinaryOperator::Subtract || operator
        == BinaryOperator::Multiply || operator == BinaryOperator::Divide || operator
        == BinaryOperator::Modulo || operator == BinaryOperator::Power
}

/// An arithmetic operator on two values. Both operands are coerced to
/// numbers, the left one first. If either has no numeric value the result is
/// nil; else it is the number that the host computes.
pub open spec fn arithmetic(operator: BinaryOperator, left: ValueView, right: ValueView)
    -> OutcomeView {
    match (coercion(left), coercion(right)) {
        (CoercionView::Text(text), _) => OutcomeView::Parse { operand: 0, text },
        (_, CoercionView::Text(text)) => OutcomeView::Parse { operand: 1, text },
        (CoercionView::Number(a), CoercionView::Number(b)) => OutcomeView::Arithmetic {
            operator,
            left: a,
            right: b,
        },
        _ => OutcomeView::Done(ValueView::Nil),
    }
}

/// What a relational operator says of two numbers.
pub open spec fn compare(operator: BinaryOperator, left: Number, right: Number) -> bool {
    match operator {
        BinaryOperator::LessThan => left.lt(right),
        BinaryOperator::LessEqual => left.le(right),
        BinaryOperator::GreaterThan => right.lt(left),
        BinaryOperator::GreaterEqual => right.le(left),
        _ => false,
    }
}

/// A relational operator on two values. Both operands are coerced to
/// numbers, the left one first. If either has no numeric value the result is
/// false; else it is what the comparison of the numbers says.
pub open spec fn relational(operator: BinaryOperator, left: ValueView, right: ValueView)
    -> OutcomeView {
    match (coercion(left), coercion(right)) {
        (CoercionView::Text(text), _) => OutcomeView::Parse { operand: 0, text },
        (_, CoercionView::Text(text)) => OutcomeView::Parse { operand: 1, text },
        (CoercionView::Number(a), CoercionView::Number(b)) => OutcomeView::Done(
            ValueView::Boolean(compare(operator, a, b)),
        ),
        _ => OutcomeView::Done(ValueView::Boolean(false)),
    }
}

/// Concatenation: the texts of both operands, joined.
pub open spec fn concatenation(left: ValueView, right: ValueView) -> OutcomeView {
    match (rendering(left), rendering(right)) {
        (RenderingView::Number(number), _) => OutcomeView::Format { operand: 0, number },
        (_, RenderingView::Number(number)) => OutcomeView::Format { operand: 1, number },
        (RenderingView::Text(a), RenderingView::Text(b)) => OutcomeView::Done(
            ValueView::String(a + b),
        ),
    }
}

/// Negation: the numeric value of the operand with the opposite sign, or nil
/// if it has none.
pub open spec fn negation(value: ValueView) -> OutcomeView {
    match coercion(value) {
        CoercionView::Text(text) => OutcomeView::Parse { operand: 0, text },
        CoercionView::Number(n) => OutcomeView::Done(ValueView::Number(n.negated())),
        CoercionView::Absent => OutcomeView::Done(ValueView::Nil),
    }
}

/// The number of bytes that a text takes in UTF-8, as the `usize` that a
/// string holding that text reports for its length.
pub open spec fn byte_length(text: Seq<char>) -> nat {
    (vstd::utf8::encode_utf8(text).len() as usize) as nat
}

/// Length: of a string, the number of bytes of its text; of a table, the
/// number of pairs it holds; of anything else, nil.
pub open spec fn length_of(value: ValueView) -> ValueView {
    match value {
        ValueView::String(s) => ValueView::Number(
            Number { bits: crate::number::integer_bits(byte_length(s)) as u64 },
        ),
        ValueView::Table(pairs) => ValueView::Number(
            Number { bits: crate::number::integer_bits(pairs.len()) as u64 },
        ),
        _ => ValueView::Nil,
    }
}

impl Value {
/// Whether the value counts as true: every value but nil and false does.
    pub fn is_truthy(&self) -> (r: bool)
        ensures
            r == truthy(self@),
    {
        match self {
            Value::Nil => false,
            Value::Boolean(b) => *b,
            _ => true,
        }
    }

/// The numeric value of the value, as far as it is known without the host.
    pub fn to_number(&self) -> (r: Coercion)
        ensures
            r@ == coercion(self@),
    {
        match self {
            Value::Number(n) => Coercion::Number(*n),
            Value::String(s) => Coercion::Text(s.clone()),
            Value::Boolean(b) => Coercion::Number(Number::from_bool(*b)),
            _ => Coercion::Absent,
        }
    }

/// The text of the value, as far as it is known without the host.
    pub fn to_string(&self) -> (r: Rendering)
        ensures
            r@ == rendering(self@),
    {
        match self {
            Value::Nil => Rendering::Text("nil".to_owned()),
            Value::Boolean(b) => Rendering::Text(
                if *b {
                    "true".to_owned()
                } else {
                    "false".to_owned()
                },
            ),
            Value::Number(n) => Rendering::Number(*n),
            Value::String(s) => Rendering::Text(s.clone()),
            Value::Table(_) => Rendering::Text("table".to_owned()),
            Value::Function(_) => Rendering::Text("function".to_owned()),
        }
    }

    /// A table without pairs.
    pub fn new_table() -> (table: Value)
        ensures
            table@ == ValueView::Table(Seq::empty()),
    {
        let pairs: Vec<(Value, Value)> = Vec::new();
        let table = Value::Table(Rc::new(pairs));
        assert(table@->Table_0 =~= Seq::empty());
        table
    }

    fn arithmetic(&self, operator: BinaryOperator, other: &Value) -> (r: Outcome)
        ensures
            r@ == arithmetic(operator, self@, other@),
    {
        match self.to_number() {
            Coercion::Text(text) => Outcome::Parse { operand: 0, text },
            Coercion::Number(left) => match other.to_number() {
                Coercion::Text(text) => Outcome::Parse { operand: 1, text },
                Coercion::Number(right) => Outcome::Arithmetic { operator, left, right },
                Coercion::Absent => Outcome::Done(Value::Nil),
            },
            Coercion::Absent => match other.to_number() {
                Coercion::Text(text) => Outcome::Parse { operand: 1, text },
                _ => Outcome::Done(Value::Nil),
            },
        }
    }

    fn relational(&self, operator: BinaryOperator, other: &Value) -> (r: Outcome)
        requires
            operator == BinaryOperator::LessThan || operator == BinaryOperator::LessEqual
                || operator == BinaryOperator::GreaterThan || operator
                == BinaryOperator::GreaterEqual,
        ensures
            r@ == relational(operator, self@, other@),
    {
        match self.to_number() {
            Coercion::Text(text) => Outcome::Parse { operand: 0, text },
            Coercion::Number(left) => match other.to_number() {
                Coercion::Text(text) => Outcome::Parse { operand: 1, text },
                Coercion::Number(right) => {
                    let holds = match operator {
                        BinaryOperator::LessThan => left.less_than(&right),
                        BinaryOperator::LessEqual => left.less_equal(&right),
                        BinaryOperator::GreaterThan => right.less_than(&left),
                        _ => right.less_equal(&left),
                    };
                    Outcome::Done(Value::Boolean(holds))
                },
                Coercion::Absent => Outcome::Done(Value::Boolean(false)),
            },
            Coercion::Absent => match other.to_number() {
                Coercion::Text(text) => Outcome::Parse { operand: 1, text },
                _ => Outcome::Done(Value::Boolean(false)),
            },
        }
    }

/// `self + other`.
    pub fn add(&self, other: &Value) -> (r: Outcome)
        ensures
            r@ == arithmetic(BinaryOperator::Add, self@, other@),
    {
        self.arithmetic(BinaryOperator::Add, other)
    }

/// `self - other`.
    pub fn subtract(&self, other: &Value) -> (r: Outcome)
        ensures
            r@ == arithmetic(BinaryOperator::Subtract, self@, other@),
    {
        self.arithmetic(BinaryOperator::Subtract, other)
    }

/// `self * other`.
    pub fn multiply(&self, other: &Value) -> (r: Outcome)
        ensures
            r@ == arithmetic(BinaryOperator::Multiply, self@, other@),
    {
        self.arithmetic(BinaryOperator::Multiply, other)
    }

/// `self / other`.
    pub fn divide(&self, other: &Value) -> (r: Outcome)
        ensures
            r@ == arithmetic(BinaryOperator::Divide, self@, other@),
    {
        self.arithmetic(BinaryOperator::Divide, other)
    }

/// `self ^ other`.
    pub fn power(&self, other: &Value) -> (r: Outcome)
        ensures
            r@ == arithmetic(BinaryOperator::Power, self@, other@),
    {
        self.arithmetic(BinaryOperator::Power, other)
    }

/// `self % other`.
    pub fn modulo(&self, other: &Value) -> (r: Outcome)
        ensures
            r@ == arithmetic(BinaryOperator::Modulo, self@, other@),
    {
        self.arithmetic(BinaryOperator::Modulo, other)
    }

/// `self == other`: equality without coercion.
    pub fn equal(&self, other: &Value) -> (r: Value)
        ensures
            r@ == ValueView::Boolean(raw_equal(self@, other@)),
    {
        Value::Boolean(*self == *other)
    }

/// `self ~= other`.
    pub fn not_equal(&self, other: &Value) -> (r: Value)
        ensures
            r@ == ValueView::Boolean(!raw_equal(self@, other@)),
    {
        Value::Boolean(!(*self == *other))
    }

/// `self < other`.
    pub fn less_than(&self, other: &Value) -> (r: Outcome)
        ensures
            r@ == relational(BinaryOperator::LessThan, self@, other@),
    {
        self.relational(BinaryOperator::LessThan, other)
    }

/// `self <= other`.
    pub fn less_equal(&self, other: &Value) -> (r: Outcome)
        ensures
            r@ == relational(BinaryOperator::LessEqual, self@, other@),
    {
        self.relational(BinaryOperator::LessEqual, other)
    }

/// `self > other`.
    pub fn greater_than(&self, other: &Value) -> (r: Outcome)
        ensures
            r@ == relational(BinaryOperator::GreaterThan, self@, other@),
    {
        self.relational(BinaryOperator::GreaterThan, other)
    }

/// `self >= other`.
    pub fn greater_equal(&self, other: &Value) -> (r: Outcome)
        ensures
            r@ == relational(BinaryOperator::GreaterEqual, self@, other@),
    {
        self.relational(BinaryOperator::GreaterEqual, other)
    }

/// `self .. other`: the texts of both, joined.
    pub fn concat(&self, other: &Value) -> (r: Outcome)
        ensures
            r@ == concatenation(self@, other@),
    {
        match self.to_string() {
            Rendering::Number(number) => Outcome::Format { operand: 0, number },
            Rendering::Text(left) => match other.to_string() {
                Rendering::Number(number) => Outcome::Format { operand: 1, number },
                Rendering::Text(right) => Outcome::Done(Value::String(left.concat(right.as_str()))),
            },
        }
    }

/// `#self`: the number of bytes of a string, the number of pairs of a
/// table, nil of anything else.
    pub fn length(&self) -> (r: Value)
        ensures
            r@ == length_of(self@),
    {
        match self {
            Value::String(s) => Value::Number(Number::from_length(s.as_str().len())),
            Value::Table(pairs) => Value::Number(Number::from_length(pairs.len())),
            _ => Value::Nil,
        }
    }

/// `-self`.
    pub fn negate(&self) -> (r: Outcome)
        ensures
            r@ == negation(self@),
    {
        match self.to_number() {
            Coercion::Text(text) => Outcome::Parse { operand: 0, text },
            Coercion::Number(n) => Outcome::Done(Value::Number(n.negate())),
            Coercion::Absent => Outcome::Done(Value::Nil),
        }
    }

/// `not self`: true of nil and false, false of everything else.
    pub fn not(&self) -> (r: Value)
        ensures
            r@ == ValueView::Boolean(!truthy(self@)),
    {
        Value::Boolean(!self.is_truthy())
    }
}

impl PartialEq for Value {
    /// `==` on values is [`raw_equal`].
    fn eq(&self, other: &Value) -> (r: bool) {
        match (self, other) {
            (Value::Nil, Value::Nil) => true,
            (Value::Boolean(a), Value::Boolean(b)) => *a == *b,
            (Value::Number(a), Value::Number(b)) => a.equals(b),
            (Value::String(a), Value::String(b)) => same_text(a, b),
            _ => false,
        }
    }
}

impl PartialEqSpecImpl for Value {
    open spec fn obeys_eq_spec() -> bool {
        true
    }

    open spec fn eq_spec(&self, other: &Value) -> bool {
        raw_equal(self@, other@)
    }
}

/// A function is equal to no value and no value is equal to a function: not
/// to itself, not to a copy of itself, not to a function with the same
/// parameters and the same body. So `==` on two functions is false and `~=` is
/// true.
pub proof fn lemma_functions_are_never_equal(function: FunctionView, other: ValueView)
    ensures
        !raw_equal(ValueView::Function(function), other),
        !raw_equal(other, ValueView::Function(function)),
        !raw_equal(ValueView::Function(function), ValueView::Function(function)),
        binary_equality(ValueView::Function(function), other) == ValueView::Boolean(false),
{
}

/// A table is equal to no value and no value is equal to a table, whatever
/// pairs it holds.
pub proof fn lemma_tables_are_never_equal(pairs: Seq<(ValueView, ValueView)>, other: ValueView)
    ensures
        !raw_equal(ValueView::Table(pairs), other),
        !raw_equal(other, ValueView::Table(pairs)),
        !raw_equal(ValueView::Table(pairs), ValueView::Table(pairs)),
{
}

/// The type of a value, as a number from 0 to 5.
pub open spec fn kind(value: ValueView) -> int {
    match value {
        ValueView::Nil => 0,
        ValueView::Boolean(_) => 1,
        ValueView::Number(_) => 2,
        ValueView::String(_) => 3,
        ValueView::Table(_) => 4,
        ValueView::Function(_) => 5,
    }
}

/// What `==` gives on two values.
pub open spec fn binary_equality(left: ValueView, right: ValueView) -> ValueView {
    ValueView::Boolean(raw_equal(left, right))
}

/// Values of different types are never equal: equality coerces nothing. A
/// number is not equal to the string that spells it, nor false to nil, nor
/// zero to false.
pub proof fn lemma_no_equality_across_types(left: ValueView, right: ValueView)
    requires
        kind(left) != kind(right),
    ensures
        !raw_equal(left, right),
        binary_equality(left, right) == ValueView::Boolean(false),
{
}

/// Nil is equal to nil.
pub proof fn lemma_nil_equals_nil()
    ensures
        raw_equal(ValueView::Nil, ValueView::Nil),
{
}

/// Equality of values is symmetric.
pub proof fn lemma_equality_is_symmetric(left: ValueView, right: ValueView)
    ensures
        raw_equal(left, right) == raw_equal(right, left),
{
}

/// The length of a table is the number of pairs it holds, whatever their
/// keys: a table with one pair under the key 100 has length one.
pub proof fn lemma_length_counts_pairs(pairs: Seq<(ValueView, ValueView)>)
    requires
        pairs.len() <= usize::MAX,
    ensures
        length_of(ValueView::Table(pairs)) == ValueView::Number(
            Number { bits: crate::number::integer_bits(pairs.len()) as u64 },
        ),
        pairs.len() == 1 ==> length_of(ValueView::Table(pairs)) == ValueView::Number(
            Number::spec_one(),
        ),
        pairs.len() == 0 ==> length_of(ValueView::Table(pairs)) == ValueView::Number(
            Number::spec_zero(),
        ),
{
    crate::number::lemma_bits_of_zero_and_one();
}

/// Every value but nil and false counts as true: zero and the empty string
/// do.
pub proof fn lemma_truthiness(value: ValueView)
    ensures
        truthy(value) <==> value != ValueView::Nil && value != ValueView::Boolean(false),
        truthy(ValueView::Number(Number::spec_zero())),
        truthy(ValueView::String(Seq::empty())),
{
}

} // verus!
