//! What the embedding host supplies as functions: the numeric kernel, that
//! is arithmetic on doubles, their order and their decimal form, and the
//! native functions of its own that templates can call. And the
//! mathematical functions that stand for them in contracts.
//!
//! The library itself computes with integers alone. A double is held by
//! its IEEE-754 bit pattern, and what doubles do is asked of the kernel.

use crate::error::Cause;
use crate::value::{list_view, Data, Number, Value};
use vstd::prelude::*;

verus! {

/// The arithmetic operators.
#[derive(Clone, Copy, Debug, PartialEq, Eq, Structural)]
pub enum Arithmetic {
    Add,
    Subtract,
    Multiply,
    Divide,
    Power,
}

/// The comparison operators: `<`, `>`, `!=`, `==`, `<=` and `>=`.
#[derive(Clone, Copy, Debug, PartialEq, Eq, Structural)]
pub enum Relation {
    Lt,
    Gt,
    Ne,
    Eq,
    Ngt,
    Nlt,
}

/// How two values stand to each other.
#[derive(Clone, Copy, Debug, PartialEq, Eq, Structural)]
pub enum Order {
    Less,
    Equal,
    Greater,
    Unordered,
}

/// What the host supplies, as mathematical functions.
pub struct Oracle {
    /// The result of an arithmetic operator on two numbers, `None` where it
    /// is no finite number.
    pub arithmetic: spec_fn(Arithmetic, Number, Number) -> Option<Number>,
    /// The order of two numbers as doubles; an integer stands for the
    /// double nearest to it.
    pub order: spec_fn(Number, Number) -> Order,
    /// The decimal form of the double with the given bit pattern.
    pub display: spec_fn(u64) -> Seq<char>,
    /// The result of the host's native function with the given number on
    /// the given arguments.
    pub native: spec_fn(u32, Seq<Data>) -> Result<Data, Cause>,
}

/// Whether `relation` holds of two values that stand in `order`.
pub open spec fn holds(relation: Relation, order: Order) -> bool {
    match relation {
        Relation::Lt => order == Order::Less,
        Relation::Gt => order == Order::Greater,
        Relation::Ne => order != Order::Equal,
        Relation::Eq => order == Order::Equal,
        Relation::Ngt => order == Order::Less || order == Order::Equal,
        Relation::Nlt => order == Order::Greater || order == Order::Equal,
    }
}

/// Whether `relation` holds of two values that stand in `order`.
pub fn decide(relation: Relation, order: Order) -> (r: bool)
    ensures
        r == holds(relation, order),
{
    match relation {
        Relation::Lt => matches!(order, Order::Less),
        Relation::Gt => matches!(order, Order::Greater),
        Relation::Ne => !matches!(order, Order::Equal),
        Relation::Eq => matches!(order, Order::Equal),
        Relation::Ngt => matches!(order, Order::Less | Order::Equal),
        Relation::Nlt => matches!(order, Order::Greater | Order::Equal),
    }
}

/// The order of two integers.
pub open spec fn integer_order(a: int, b: int) -> Order {
    if a < b {
        Order::Less
    } else if a == b {
        Order::Equal
    } else {
        Order::Greater
    }
}

/// The order of two integers.
pub fn order_integers(a: i128, b: i128) -> (r: Order)
    ensures
        r == integer_order(a as int, b as int),
{
    if a < b {
        Order::Less
    } else if a == b {
        Order::Equal
    } else {
        Order::Greater
    }
}

/// The arithmetic function accepts every input and is a function of its
/// arguments.
pub open spec fn arithmetic_sound<A: Fn(Arithmetic, Number, Number) -> Option<Number>>(
    f: &A,
) -> bool {
    &&& forall|op: Arithmetic, a: Number, b: Number| #[trigger] f.requires((op, a, b))
    &&& forall|op: Arithmetic, a: Number, b: Number, r1: Option<Number>, r2: Option<Number>|
        #[trigger] f.ensures((op, a, b), r1) && #[trigger] f.ensures((op, a, b), r2) ==> r1 == r2
}

/// The order function accepts every input and is a function of its
/// arguments.
pub open spec fn order_sound<C: Fn(Number, Number) -> Order>(f: &C) -> bool {
    &&& forall|a: Number, b: Number| #[trigger] f.requires((a, b))
    &&& forall|a: Number, b: Number, r1: Order, r2: Order|
        #[trigger] f.ensures((a, b), r1) && #[trigger] f.ensures((a, b), r2) ==> r1 == r2
}

/// The display function accepts every input and its text is a function of
/// its argument.
pub open spec fn display_sound<D: Fn(u64) -> String>(f: &D) -> bool {
    &&& forall|bits: u64| #[trigger] f.requires((bits,))
    &&& forall|bits: u64, r1: String, r2: String|
        #[trigger] f.ensures((bits,), r1) && #[trigger] f.ensures((bits,), r2) ==> r1@ == r2@
}

/// The mathematical result of a native function.
pub open spec fn outcome(r: Result<Value, Cause>) -> Result<Data, Cause> {
    match r {
        Ok(value) => Ok(value@),
        Err(cause) => Err(cause),
    }
}

/// The host's native functions accept every input, and what they give is
/// a function of the number of the function and of what the arguments
/// hold.
pub open spec fn native_sound<N: Fn(u32, Vec<Value>) -> Result<Value, Cause>>(f: &N) -> bool {
    &&& forall|id: u32, arguments: Vec<Value>| #[trigger] f.requires((id, arguments))
    &&& forall|
        id: u32,
        a1: Vec<Value>,
        a2: Vec<Value>,
        r1: Result<Value, Cause>,
        r2: Result<Value, Cause>,
    |
        list_view(a1@, a1@.len()) == list_view(a2@, a2@.len()) && #[trigger] f.ensures(
            (id, a1),
            r1,
        ) && #[trigger] f.ensures((id, a2), r2) ==> outcome(r1) == outcome(r2)
}

/// Whether `result` is what the host's native function `id` gives on
/// arguments that hold `arguments`.
pub open spec fn native_gives<N: Fn(u32, Vec<Value>) -> Result<Value, Cause>>(
    f: &N,
    id: u32,
    arguments: Seq<Data>,
    result: Result<Data, Cause>,
) -> bool {
    exists|a: Vec<Value>, r: Result<Value, Cause>|
        list_view(a@, a@.len()) == arguments && #[trigger] f.ensures((id, a), r) && outcome(r)
            == result
}

/// The mathematical functions that the host's functions compute.
pub open spec fn oracle_of<
    A: Fn(Arithmetic, Number, Number) -> Option<Number>,
    C: Fn(Number, Number) -> Order,
    D: Fn(u64) -> String,
    N: Fn(u32, Vec<Value>) -> Result<Value, Cause>,
>(arithmetic: &A, order: &C, display: &D, native: &N) -> Oracle {
    Oracle {
        arithmetic: |op: Arithmetic, a: Number, b: Number|
            choose|r: Option<Number>| arithmetic.ensures((op, a, b), r),
        order: |a: Number, b: Number| choose|r: Order| order.ensures((a, b), r),
        display: |bits: u64| (choose|r: String| display.ensures((bits,), r))@,
        native: |id: u32, arguments: Seq<Data>|
            choose|result: Result<Data, Cause>| native_gives(native, id, arguments, result),
    }
}

} // verus!
