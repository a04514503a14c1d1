//! What a template means: the value of an expression and the effect of a
//! statement, as mathematical functions of the syntax tree, the state and
//! the numeric kernel. The interpreter is proved to compute them.

use crate::climb::{climb, rules_of, Term};
use crate::error::{Cause, RendererError};
use crate::kernel::{holds, integer_order, Arithmetic, Oracle, Order, Relation};
use crate::path::Step;
use crate::syntax::{no_span, span_at, Pair, Rule, Span};
use crate::text::{decimal, json_number, text_order, uint_value};
use crate::value::{Data, Number};
use vstd::prelude::*;

verus! {

/// What a render works on: the document, the scope frames of the loops that
/// are running, innermost last, and the text rendered so far.
pub struct State {
    pub root: Data,
    pub frames: Seq<Data>,
    pub output: Seq<char>,
}

/// How a statement ends: the state it leaves, and the failure that stopped
/// it, if one did.
pub struct Outcome {
    pub state: State,
    pub error: Option<RendererError>,
}

/// The native functions that a template can call.
#[derive(Clone, Copy, Debug, PartialEq, Eq, Structural)]
pub enum Builtin {
    /// Gives back its first argument.
    FirstArgument,
    /// The native function of the host with the given number.
    Host(u32),
}

/// What stays fixed during a render: the functions of the host and the
/// registry of native functions, by name.
pub struct Context {
    pub oracle: Oracle,
    pub natives: Seq<(Seq<char>, Builtin)>,
}

/// The state in which a render of `document` starts.
pub open spec fn initial(document: Data) -> State {
    State { root: document, frames: Seq::empty(), output: Seq::empty() }
}

/// The registry that the library starts with: `existsIn` gives back its
/// first argument.
pub open spec fn registry() -> Seq<(Seq<char>, Builtin)> {
    seq![("existsIn"@, Builtin::FirstArgument)]
}

/// A statement that ended well in `state`.
pub open spec fn done(state: State) -> Outcome {
    Outcome { state, error: None }
}

/// A statement that `error` stopped in `state`.
pub open spec fn failed(state: State, error: RendererError) -> Outcome {
    Outcome { state, error: Some(error) }
}

/// The failure for `cause` at `span`.
pub open spec fn fault(cause: Cause, span: Span) -> RendererError {
    RendererError { cause, span }
}

/// The state with `text` appended to its output.
pub open spec fn emit(state: State, text: Seq<char>) -> State {
    State { output: state.output + text, ..state }
}

/// The binding of `name` in the innermost of the first `depth` frames that
/// has one, and else in the document.
pub open spec fn bound(state: State, name: Seq<char>, depth: nat) -> Option<Data>
    decreases depth,
{
    if depth == 0 || depth > state.frames.len() {
        state.root.member(name)
    } else {
        match state.frames[depth - 1].member(name) {
            Some(value) => Some(value),
            None => bound(state, name, (depth - 1) as nat),
        }
    }
}

/// The value that `name` stands for: scope frames are searched innermost
/// first, then the document.
pub open spec fn variable(state: State, name: Seq<char>) -> Option<Data> {
    bound(state, name, state.frames.len())
}

/// The text between the quotes of a string literal.
pub open spec fn string_content(node: Pair) -> Seq<char> {
    if node.inner@.len() > 0 {
        node.inner@[0].text@
    } else {
        Seq::empty()
    }
}

/// The arithmetic operator that a rule stands for.
pub open spec fn arithmetic_of(rule: Rule) -> Option<Arithmetic> {
    match rule {
        Rule::add => Some(Arithmetic::Add),
        Rule::subtract => Some(Arithmetic::Subtract),
        Rule::multiply => Some(Arithmetic::Multiply),
        Rule::divide => Some(Arithmetic::Divide),
        Rule::power => Some(Arithmetic::Power),
        _ => None,
    }
}

/// The comparison that an operator node stands for.
pub open spec fn relation_of(op: Pair) -> Option<Relation> {
    if op.rule == Rule::comparison && op.inner@.len() > 0 {
        match op.inner@[0].rule {
            Rule::lt => Some(Relation::Lt),
            Rule::gt => Some(Relation::Gt),
            Rule::ne => Some(Relation::Ne),
            Rule::eq => Some(Relation::Eq),
            Rule::ngt => Some(Relation::Ngt),
            Rule::nlt => Some(Relation::Nlt),
            _ => None,
        }
    } else {
        None
    }
}

/// The order of two values of one kind: numbers, texts, booleans (false
/// before true) and nulls can be compared, and nothing else. Two numbers
/// are compared as doubles, integers too: their order is the kernel's.
pub open spec fn order_of(oracle: Oracle, a: Data, b: Data) -> Option<Order> {
    match (a, b) {
        (Data::Number(x), Data::Number(y)) => Some((oracle.order)(x, y)),
        (Data::Text(s), Data::Text(t)) => Some(text_order(s, t, 0)),
        (Data::Bool(p), Data::Bool(q)) => Some(
            integer_order(if p { 1int } else { 0int }, if q { 1int } else { 0int }),
        ),
        (Data::Null, Data::Null) => Some(Order::Equal),
        _ => None,
    }
}

/// The value of a binary operator on two values. An arithmetic operator
/// takes two numbers and gives the kernel's result, null where that is no
/// finite number; a comparison takes two values that can be compared and
/// gives a boolean. A failure is reported at the operator and names the
/// operand that is at fault, the left one where both are.
pub open spec fn apply(oracle: Oracle, op: Pair, a: Data, b: Data) -> Result<
    Data,
    RendererError,
> {
    match arithmetic_of(op.rule) {
        Some(operator) => match (a, b) {
            (Data::Number(x), Data::Number(y)) => Ok(
                match (oracle.arithmetic)(operator, x, y) {
                    Some(n) => Data::Number(n),
                    None => Data::Null,
                },
            ),
            (Data::Number(_), _) => Err(fault(Cause::RightOperandNotNumber, op.span)),
            _ => Err(fault(Cause::LeftOperandNotNumber, op.span)),
        },
        None => match relation_of(op) {
            Some(relation) => match order_of(oracle, a, b) {
                Some(order) => Ok(Data::Bool(holds(relation, order))),
                None => Err(fault(Cause::OperandsNotComparable, op.span)),
            },
            None => Err(fault(Cause::Unsupported, op.span)),
        },
    }
}

/// The first entry of the registry at or after `from` that is named `name`.
pub open spec fn native(natives: Seq<(Seq<char>, Builtin)>, name: Seq<char>, from: nat) -> Option<
    Builtin,
>
    decreases natives.len() - from,
{
    if from >= natives.len() {
        None
    } else if natives[from as int].0 == name {
        Some(natives[from as int].1)
    } else {
        native(natives, name, from + 1)
    }
}

/// The result of a native function on its arguments. A failure of a
/// native function of the host is reported at `span`.
pub open spec fn invoke(oracle: Oracle, function: Builtin, arguments: Seq<Data>, span: Span) -> Result<
    Data,
    RendererError,
> {
    match function {
        Builtin::FirstArgument => if arguments.len() > 0 {
            Ok(arguments[0])
        } else {
            Err(fault(Cause::MissingArgument, span))
        },
        Builtin::Host(id) => match (oracle.native)(id, arguments) {
            Ok(value) => Ok(value),
            Err(cause) => Err(fault(cause, span)),
        },
    }
}

/// The value of a number literal at `span`, given what was read from its
/// text: the number, or a failure where none was read.
pub open spec fn number_literal(found: Option<Number>, span: Span) -> Result<Data, RendererError> {
    match found {
        Some(n) => Ok(Data::Number(n)),
        None => Err(fault(Cause::Unsupported, span)),
    }
}

/// The value of one operand of an expression: a number literal is read as
/// JSON reads it, a string literal is its content, an identifier is the
/// variable of that name, and a subscript chain, a call and an expression
/// in parentheses are evaluated in their turn.
pub open spec fn operand(cx: Context, state: State, node: Pair) -> Result<Data, RendererError>
    decreases node, 0nat, 0nat,
{
    match node.rule {
        Rule::num => number_literal(json_number(node.text@), node.span),
        Rule::str => Ok(Data::Text(string_content(node))),
        Rule::ident => match variable(state, node.text@) {
            Some(value) => Ok(value),
            None => Err(fault(Cause::VariableNotFound, node.span)),
        },
        Rule::subs => read_path(cx, state, node.inner@),
        Rule::call => call(cx, state, node.inner@),
        Rule::expr => eval(cx, state, node.inner@),
        _ => Err(fault(Cause::Unsupported, node.span)),
    }
}

/// The value of an expression: of the tree that precedence climbing makes
/// of its operands and operators.
pub open spec fn eval(cx: Context, state: State, nodes: Seq<Pair>) -> Result<Data, RendererError>
    decreases nodes, 3nat, 0nat,
{
    match climb(rules_of(nodes)) {
        Ok(term) => eval_term(cx, state, nodes, term),
        Err(at) => Err(fault(Cause::Unsupported, span_at(nodes, at as int))),
    }
}

/// The value of an expression tree: the left side is evaluated first, and
/// the first failure ends the evaluation.
pub open spec fn eval_term(cx: Context, state: State, nodes: Seq<Pair>, term: Term) -> Result<
    Data,
    RendererError,
>
    decreases nodes, 2nat, term.size(),
{
    match term {
        Term::Leaf(at) => if at < nodes.len() {
            operand(cx, state, nodes[at as int])
        } else {
            Err(fault(Cause::Unsupported, no_span()))
        },
        Term::Binary(at, left, right) => match eval_term(cx, state, nodes, *left) {
            Err(e) => Err(e),
            Ok(a) => match eval_term(cx, state, nodes, *right) {
                Err(e) => Err(e),
                Ok(b) => if at < nodes.len() {
                    apply(cx.oracle, nodes[at as int], a, b)
                } else {
                    Err(fault(Cause::Unsupported, no_span()))
                },
            },
        },
    }
}

/// The step that one key of a subscript chain stands for: a name or a
/// string for a key of a mapping, an unsigned number for an index. A key
/// written as an expression is evaluated and must give a string.
pub open spec fn segment(cx: Context, state: State, key: Pair) -> Result<Step, RendererError>
    decreases key, 1nat, 0nat,
{
    match key.rule {
        Rule::ident => Ok(Step::Key(key.text@)),
        Rule::uint => match uint_value(key.text@) {
            Some(index) => Ok(Step::Index(index)),
            None => Err(fault(Cause::Unsupported, key.span)),
        },
        Rule::str | Rule::expr => match operand(cx, state, key) {
            Ok(Data::Text(text)) => Ok(Step::Key(text)),
            Ok(_) => Err(fault(Cause::KeyNotString, key.span)),
            Err(e) => Err(e),
        },
        _ => Err(fault(Cause::Unsupported, key.span)),
    }
}

/// The steps of the keys from `from` on, appended to `path`.
pub open spec fn resolve(cx: Context, state: State, keys: Seq<Pair>, from: nat, path: Seq<Step>) -> Result<
    Seq<Step>,
    RendererError,
>
    decreases keys, 2nat, keys.len() - from,
{
    if from >= keys.len() {
        Ok(path)
    } else {
        match segment(cx, state, keys[from as int]) {
            Ok(step) => resolve(cx, state, keys, from + 1, path.push(step)),
            Err(e) => Err(e),
        }
    }
}

/// The failure of a path whose step `at` leads nowhere: the first step is
/// a variable, the later ones are keys and indices.
pub open spec fn missing(keys: Seq<Pair>, at: nat) -> RendererError {
    if at == 0 {
        fault(Cause::VariableNotFound, span_at(keys, 0))
    } else {
        fault(Cause::KeyNotFound, span_at(keys, at as int))
    }
}

/// The value at the end of `path`, whose first step names a variable.
pub open spec fn read(state: State, keys: Seq<Pair>, path: Seq<Step>) -> Result<
    Data,
    RendererError,
> {
    if path.len() == 0 {
        Err(fault(Cause::Unsupported, no_span()))
    } else {
        match path[0] {
            Step::Key(name) => match variable(state, name) {
                Some(base) => match base.walk(path, 1) {
                    Ok(value) => Ok(value),
                    Err(at) => Err(missing(keys, at)),
                },
                None => Err(missing(keys, 0)),
            },
            Step::Index(_) => Err(fault(Cause::Unsupported, span_at(keys, 0))),
        }
    }
}

/// The value that a subscript chain reads.
pub open spec fn read_path(cx: Context, state: State, keys: Seq<Pair>) -> Result<
    Data,
    RendererError,
>
    decreases keys, 3nat, 0nat,
{
    match resolve(cx, state, keys, 0, Seq::empty()) {
        Ok(path) => read(state, keys, path),
        Err(e) => Err(e),
    }
}

/// The values of the argument nodes from `from` on, appended to `values`.
pub open spec fn arguments(
    cx: Context,
    state: State,
    nodes: Seq<Pair>,
    from: nat,
    values: Seq<Data>,
) -> Result<Seq<Data>, RendererError>
    decreases nodes, 2nat, nodes.len() - from,
{
    if from >= nodes.len() {
        Ok(values)
    } else {
        match operand(cx, state, nodes[from as int]) {
            Ok(value) => arguments(cx, state, nodes, from + 1, values.push(value)),
            Err(e) => Err(e),
        }
    }
}

/// The value of a call: its first node names the function, the others are
/// its arguments. The name is looked up before an argument is evaluated.
pub open spec fn call(cx: Context, state: State, nodes: Seq<Pair>) -> Result<Data, RendererError>
    decreases nodes, 3nat, 0nat,
{
    if nodes.len() == 0 {
        Err(fault(Cause::Unsupported, no_span()))
    } else {
        match native(cx.natives, nodes[0].text@, 0) {
            None => Err(fault(Cause::UnknownFunction, nodes[0].span)),
            Some(function) => match arguments(cx, state, nodes, 1, Seq::empty()) {
                Ok(values) => invoke(cx.oracle, function, values, nodes[0].span),
                Err(e) => Err(e),
            },
        }
    }
}

/// The text that a value contributes to the output: a string as it is, an
/// integer in decimal, a double as the kernel writes it. Other values have
/// no place in the output.
pub open spec fn rendering(oracle: Oracle, value: Data) -> Option<Seq<char>> {
    match value {
        Data::Text(text) => Some(text),
        Data::Number(Number::Integer(n)) => Some(decimal(n as int)),
        Data::Number(Number::Float(bits)) => Some((oracle.display)(bits)),
        _ => None,
    }
}

/// An expression section: its value is appended to the output.
pub open spec fn print(cx: Context, state: State, nodes: Seq<Pair>) -> Outcome {
    match eval(cx, state, nodes) {
        Err(e) => failed(state, e),
        Ok(value) => match rendering(cx.oracle, value) {
            Some(text) => done(emit(state, text)),
            None => failed(state, fault(Cause::NotPrintable, span_at(nodes, 0))),
        },
    }
}

/// The document with the slot at the end of `path` holding `value`.
/// Nothing is created: a step that leads nowhere is a failure, and a
/// failure changes nothing.
pub open spec fn put(state: State, keys: Seq<Pair>, path: Seq<Step>, value: Data) -> Outcome {
    if path.len() == 0 {
        failed(state, fault(Cause::Unsupported, no_span()))
    } else {
        match state.root.store(path, 0, value) {
            Ok(root) => done(State { root, ..state }),
            Err(at) => failed(state, missing(keys, at)),
        }
    }
}

/// An assignment to a subscript chain: the chain is resolved as for
/// reading, but its first key names an entry of the document, not of a
/// scope frame.
pub open spec fn write_path(cx: Context, state: State, keys: Seq<Pair>, value: Data) -> Outcome {
    match resolve(cx, state, keys, 0, Seq::empty()) {
        Ok(path) => put(state, keys, path, value),
        Err(e) => failed(state, e),
    }
}

/// An assignment to a target: an identifier or a subscript chain.
pub open spec fn write_lvalue(cx: Context, state: State, lvalue: Pair, value: Data) -> Outcome {
    if lvalue.inner@.len() == 0 {
        failed(state, fault(Cause::Unsupported, lvalue.span))
    } else {
        let first = lvalue.inner@[0];
        match first.rule {
            Rule::ident => put(state, lvalue.inner@, seq![Step::Key(first.text@)], value),
            Rule::subs => write_path(cx, state, first.inner@, value),
            _ => failed(state, fault(Cause::Unsupported, first.span)),
        }
    }
}

/// A `set` statement: the right-hand side is evaluated first, then the
/// target is resolved and the slot it names takes the value.
pub open spec fn assign(cx: Context, state: State, stmt: Pair) -> Outcome {
    if stmt.inner@.len() < 2 {
        failed(state, fault(Cause::Unsupported, stmt.span))
    } else {
        match operand(cx, state, stmt.inner@[1]) {
            Err(e) => failed(state, e),
            Ok(value) => write_lvalue(cx, state, stmt.inner@[0], value),
        }
    }
}

/// One statement: an assignment, or an inclusion, which does nothing.
pub open spec fn run_stmt(cx: Context, state: State, node: Pair) -> Outcome {
    match node.rule {
        Rule::set_stmt => assign(cx, state, node),
        Rule::include_stmt => done(state),
        _ => failed(state, fault(Cause::Unsupported, node.span)),
    }
}

/// The statements from `from` on, in order, up to the first failure.
pub open spec fn run_stmts(cx: Context, state: State, nodes: Seq<Pair>, from: nat) -> Outcome
    decreases nodes.len() - from,
{
    if from >= nodes.len() {
        done(state)
    } else {
        let out = run_stmt(cx, state, nodes[from as int]);
        if out.error is Some {
            out
        } else {
            run_stmts(cx, out.state, nodes, from + 1)
        }
    }
}

/// The value of a predicate, which must be a boolean.
pub open spec fn predicate(cx: Context, state: State, node: Pair) -> Result<bool, RendererError> {
    match eval(cx, state, node.inner@) {
        Ok(Data::Bool(b)) => Ok(b),
        Ok(_) => Err(fault(Cause::PredicateNotBoolean, node.span)),
        Err(e) => Err(e),
    }
}

/// What a loop runs over: the elements of a sequence, each with its index,
/// or the entries of a mapping in their order, each with its key.
pub open spec fn entries(target: Data) -> Option<Seq<(Data, Data)>> {
    match target {
        Data::List(items) => Some(
            Seq::new(items.len(), |i: int| (Data::Number(Number::Integer(i as i128)), items[i])),
        ),
        Data::Dict(members) => Some(
            Seq::new(members.len(), |i: int| (Data::Text(members[i].0), members[i].1)),
        ),
        _ => None,
    }
}

/// The names that a `for` statement declares: one for the element, or two
/// for the key (or index) and the element. The last node of the statement
/// is the loop's target.
pub open spec fn loop_names(head: Pair) -> Option<Seq<Seq<char>>> {
    let nodes = head.inner@;
    if nodes.len() == 2 && nodes[0].rule == Rule::ident {
        Some(seq![nodes[0].text@])
    } else if nodes.len() == 3 && nodes[0].rule == Rule::ident && nodes[1].rule == Rule::ident {
        Some(seq![nodes[0].text@, nodes[1].text@])
    } else {
        None
    }
}

/// The metadata of iteration `index` of a loop over `count` elements.
/// `parent` is the metadata of the enclosing loop, or null.
pub open spec fn loop_meta(index: nat, count: nat, parent: Data) -> Data {
    Data::Dict(
        seq![
            ("index"@, Data::Number(Number::Integer(index as i128))),
            ("index1"@, Data::Number(Number::Integer((index + 1) as i128))),
            ("is_first"@, Data::Bool(index == 0)),
            ("is_last"@, Data::Bool(index + 1 == count)),
            ("parent"@, parent),
        ],
    )
}

/// The metadata of the innermost running loop, or null where none runs.
pub open spec fn enclosing_loop(frames: Seq<Data>) -> Data {
    if frames.len() > 0 {
        match frames.last().member("loop"@) {
            Some(meta) => meta,
            None => Data::Null,
        }
    } else {
        Data::Null
    }
}

/// A scope frame: the metadata under `loop`, then the loop's names bound
/// to the key and the element.
pub open spec fn frame(
    names: Seq<Seq<char>>,
    key: Data,
    element: Data,
    index: nat,
    count: nat,
    parent: Data,
) -> Data {
    let meta = ("loop"@, loop_meta(index, count, parent));
    if names.len() == 1 {
        Data::Dict(seq![meta, (names[0], element)])
    } else if names.len() == 2 {
        Data::Dict(seq![meta, (names[0], key), (names[1], element)])
    } else {
        Data::Dict(seq![meta])
    }
}

/// The scope frame of iteration `index` of a loop over `items`, entered
/// with the scope frames `frames`.
pub open spec fn loop_frame(
    frames: Seq<Data>,
    names: Seq<Seq<char>>,
    items: Seq<(Data, Data)>,
    index: nat,
) -> Data {
    frame(
        names,
        items[index as int].0,
        items[index as int].1,
        index,
        items.len(),
        enclosing_loop(frames),
    )
}

/// The frames without the innermost one.
pub open spec fn popped(frames: Seq<Data>) -> Seq<Data> {
    if frames.len() > 0 {
        frames.drop_last()
    } else {
        frames
    }
}

/// The sections from `from` on, in source order, up to the first failure.
pub open spec fn run_sections(cx: Context, state: State, nodes: Seq<Pair>, from: nat) -> Outcome
    decreases nodes, 2nat, nodes.len() - from,
{
    if from >= nodes.len() {
        done(state)
    } else {
        let out = run_section(cx, state, nodes[from as int]);
        if out.error is Some {
            out
        } else {
            run_sections(cx, out.state, nodes, from + 1)
        }
    }
}

/// One section of a template: literal text goes to the output as it is, an
/// expression by its value, a statement or a block is carried out.
pub open spec fn run_section(cx: Context, state: State, node: Pair) -> Outcome
    decreases node, 1nat, 0nat,
{
    match node.rule {
        Rule::block => run_blocks(cx, state, node.inner@, 0),
        Rule::single_stmt => run_stmts(cx, state, node.inner@, 0),
        Rule::tmpl_literal => done(emit(state, node.text@)),
        Rule::expr => print(cx, state, node.inner@),
        Rule::EOI => done(state),
        _ => failed(state, fault(Cause::Unsupported, node.span)),
    }
}

/// The body of a branch or of a loop: its sections.
pub open spec fn run_body(cx: Context, state: State, node: Pair) -> Outcome
    decreases node, 1nat, 0nat,
{
    run_sections(cx, state, node.inner@, 0)
}

/// The blocks from `from` on, in order, up to the first failure.
pub open spec fn run_blocks(cx: Context, state: State, nodes: Seq<Pair>, from: nat) -> Outcome
    decreases nodes, 2nat, nodes.len() - from,
{
    if from >= nodes.len() {
        done(state)
    } else {
        let out = run_block(cx, state, nodes[from as int]);
        if out.error is Some {
            out
        } else {
            run_blocks(cx, out.state, nodes, from + 1)
        }
    }
}

/// One block: a chain of branches or a loop.
pub open spec fn run_block(cx: Context, state: State, node: Pair) -> Outcome
    decreases node, 1nat, 0nat,
{
    match node.rule {
        Rule::if_block => run_if(cx, state, node.inner@, 0, None),
        Rule::for_block => run_for(cx, state, node.inner@),
        _ => failed(state, fault(Cause::Unsupported, node.span)),
    }
}

/// A chain of branches from its node `from` on. `flag` is the value of the
/// predicate seen last. A predicate is evaluated when it is reached; the
/// body after a true predicate runs and ends the chain; the body of an
/// `else` runs when it is reached.
pub open spec fn run_if(
    cx: Context,
    state: State,
    nodes: Seq<Pair>,
    from: nat,
    flag: Option<bool>,
) -> Outcome
    decreases nodes, 2nat, nodes.len() - from,
{
    if from >= nodes.len() {
        done(state)
    } else {
        let node = nodes[from as int];
        match node.rule {
            Rule::if_stmt | Rule::else_if_stmt => match predicate(cx, state, node) {
                Ok(b) => run_if(cx, state, nodes, from + 1, Some(b)),
                Err(e) => failed(state, e),
            },
            Rule::if_body | Rule::else_if_body => if flag == Some(true) {
                run_body(cx, state, node)
            } else {
                run_if(cx, state, nodes, from + 1, flag)
            },
            Rule::else_body => {
                let out = run_body(cx, state, node);
                if out.error is Some {
                    out
                } else {
                    run_if(cx, out.state, nodes, from + 1, flag)
                }
            },
            _ => failed(state, fault(Cause::Unsupported, node.span)),
        }
    }
}

/// A loop, given as its two nodes: the `for` statement and the body. The
/// target is evaluated once and must be a sequence or a mapping.
pub open spec fn run_for(cx: Context, state: State, nodes: Seq<Pair>) -> Outcome
    decreases nodes, 3nat, 0nat,
{
    if nodes.len() != 2 || nodes[0].rule != Rule::for_stmt || nodes[1].rule != Rule::for_body {
        failed(state, fault(Cause::Unsupported, span_at(nodes, 0)))
    } else {
        match loop_names(nodes[0]) {
            None => failed(state, fault(Cause::Unsupported, nodes[0].span)),
            Some(names) => match operand(cx, state, nodes[0].inner@.last()) {
                Err(e) => failed(state, e),
                Ok(target) => match entries(target) {
                    None => failed(state, fault(Cause::NotIterable, nodes[0].span)),
                    Some(items) => iterate(cx, state, nodes, names, items, 0),
                },
            },
        }
    }
}

/// The iterations of a loop from `index` on. Each one pushes its scope
/// frame, runs the body and pops the frame again, also where the body
/// fails; a failure ends the loop. The frame is made anew for each
/// iteration from the frames as they then stand, so `loop.parent` is the
/// metadata of the enclosing loop in its current iteration.
pub open spec fn iterate(
    cx: Context,
    state: State,
    nodes: Seq<Pair>,
    names: Seq<Seq<char>>,
    items: Seq<(Data, Data)>,
    index: nat,
) -> Outcome
    decreases nodes, 2nat, items.len() - index,
{
    if index >= items.len() || nodes.len() != 2 {
        done(state)
    } else {
        let inside = State {
            frames: state.frames.push(loop_frame(state.frames, names, items, index)),
            ..state
        };
        let out = run_body(cx, inside, nodes[1]);
        let after = State { frames: popped(out.state.frames), ..out.state };
        if out.error is Some {
            Outcome { state: after, error: out.error }
        } else {
            iterate(cx, after, nodes, names, items, index + 1)
        }
    }
}

} // verus!
