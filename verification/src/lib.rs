//! An interpreter for a small, dynamically typed scripting language in the
//! manner of Lua: a lexer, a recursive-descent parser, a model of values and
//! operators, and an evaluator that walks the syntax tree.
//!
//! Every function of this crate is verified: it has a contract over the
//! mathematical views of its arguments, and Verus proves that it meets the
//! contract, ends, and neither overflows nor panics.
//!
//! # What the language does
//!
//! The language is lenient throughout, and the contracts say exactly how.
//!
//! * **Lexing never fails.** Text that yields no token, an unknown
//!   character, a string without its closing quote, a number with two dots,
//!   is dropped, and the token sequence always ends in the end marker.
//! * **Parsing never fails.** A statement that cannot be parsed is left out,
//!   and parsing goes on where the attempt stopped. Closing tokens such as
//!   `then`, `do`, `end` and `)` are optional.
//! * **Binary operators have no precedence.** A chain of operators is
//!   applied from the left, so `1 + 2 * 3` is `(1 + 2) * 3`. Unary operators
//!   bind tighter and nest to the right.
//! * **Operators never fail.** Arithmetic on what has no numeric value gives
//!   nil, a comparison gives false, calling what is no function gives nil,
//!   and so does indexing what is no table or reading an unbound name.
//! * **Equality coerces nothing**, and a table or a function is equal to
//!   nothing, not even to itself.
//! * **Scoping is dynamic.** A name is looked up in the call frames that are
//!   open when it is read, the innermost first, and then in the global table.
//!   A function records no bindings of the place where it was defined. A
//!   plain assignment always writes the global table; `local` and the
//!   variable of a numeric `for` loop write the innermost call frame, and
//!   need one.
//! * **`break` and `return` do not jump.** `break` does nothing. `return`
//!   evaluates its expressions and leaves the value of the first as the value
//!   of the statement; the statements behind it run, and the value of a block
//!   is that of its last statement.
//!
//! # Numbers and the host
//!
//! A number is a double, held as its 64 bits ([`number::Number`]). This crate
//! holds no floating-point code. Order, equality, negation and the encoding
//! of a count are computed on the bits. Arithmetic, and the conversion between
//! doubles and text, are left to the host, and so is printing: the evaluator
//! ([`vm::Vm`]) runs in steps, a step that needs the host ends in a
//! request, and the next step takes the answer.
//!
//! # What is proved
//!
//! Every function has an exact contract: the lexer yields the tokens that
//! [`lexer::lex`] defines, the parser the statements that
//! [`parser::parse_tokens`] defines, and a step of the evaluator is the step
//! that [`vm::VmView::step`] defines. The module [`semantics`] says what a
//! program means, by recursion over its syntax tree, and proves that the
//! evaluator, run with a host, does what the program means
//! ([`semantics::lemma_execute`]).

pub mod ast;
pub mod lexer;
pub mod number;
pub mod parser;
pub mod semantics;
pub mod text;
pub mod value;
pub mod vm;
