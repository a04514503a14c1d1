//! The interpreter: it evaluates expressions, carries out statements and
//! renders a template against a document.

use crate::climb::{grow, Term};
use crate::error::{Cause, RendererError};
use crate::kernel::{
    arithmetic_sound, decide, display_sound, native_gives, native_sound, oracle_of,
    order_integers, order_sound, outcome, Arithmetic, Order, Relation,
};
use crate::path::{steps, Segment, Step};
use crate::semantics::{
    apply, arguments, arithmetic_of, assign, bound, call, enclosing_loop, entries, eval, eval_term,
    fault, frame, initial, invoke, iterate, loop_meta, loop_names, missing, native, number_literal,
    operand, order_of, predicate, print, put, read_path, registry, relation_of, resolve, run_block,
    run_blocks, run_body, run_for, run_if, run_section, run_sections, run_stmts, segment, variable,
    write_lvalue, write_path, Builtin, Context, Outcome, State,
};
use crate::syntax::{span_of, Pair, Rule, Span};
use crate::text::{
    order_texts, parse_json_number, parse_uint, push_decimal, reserve_text, same_text,
};
use crate::value::{
    dict_view, lemma_dict_view, lemma_list_view, lemma_list_view_drop_last, lemma_list_view_push,
    list_view, Data, Member, Number, Value,
};
use vstd::prelude::*;
use vstd::string::StringExecFns;

verus! {

/// One entry of the registry of native functions.
#[derive(Debug)]
pub struct Native {
    pub name: String,
    pub function: Builtin,
}

/// The registry as a mathematical value.
pub open spec fn natives_view(natives: Seq<Native>) -> Seq<(Seq<char>, Builtin)> {
    natives.map_values(|n: Native| (n.name@, n.function))
}

/// The mathematical result of an evaluation.
pub open spec fn model(r: Result<Value, RendererError>) -> Result<Data, RendererError> {
    match r {
        Ok(value) => Ok(value@),
        Err(e) => Err(e),
    }
}

/// The interpreter of one render: the document, the scope frames of the
/// running loops, the registry of native functions, the text rendered so
/// far, and the functions of the host: its numeric kernel (`arithmetic`,
/// `compare`, `display`) and its native functions (`native`).
pub struct Interpreter<A, C, D, N> {
    pub env: Value,
    pub tmp_var: Vec<Value>,
    pub built_in_fn: Vec<Native>,
    pub render_result: String,
    pub arithmetic: A,
    pub compare: C,
    pub display: D,
    pub native: N,
}

impl<
    A: Fn(Arithmetic, Number, Number) -> Option<Number>,
    C: Fn(Number, Number) -> Order,
    D: Fn(u64) -> String,
    N: Fn(u32, Vec<Value>) -> Result<Value, Cause>,
> View for Interpreter<A, C, D, N> {
    type V = State;

    open spec fn view(&self) -> State {
        State {
            root: self.env@,
            frames: list_view(self.tmp_var@, self.tmp_var@.len()),
            output: self.render_result@,
        }
    }
}

impl<
    A: Fn(Arithmetic, Number, Number) -> Option<Number>,
    C: Fn(Number, Number) -> Order,
    D: Fn(u64) -> String,
    N: Fn(u32, Vec<Value>) -> Result<Value, Cause>,
> Interpreter<A, C, D, N> {
    /// What stays fixed during a render.
    pub open spec fn context(&self) -> Context {
        Context {
            oracle: oracle_of(&self.arithmetic, &self.compare, &self.display, &self.native),
            natives: natives_view(self.built_in_fn@),
        }
    }

    /// The functions of the host accept every input and are functions of
    /// their arguments.
    pub open spec fn wf(&self) -> bool {
        &&& arithmetic_sound(&self.arithmetic)
        &&& order_sound(&self.compare)
        &&& display_sound(&self.display)
        &&& native_sound(&self.native)
    }

    /// The functions of the host and the registry are those of `before`.
    pub open spec fn same_host(&self, before: &Self) -> bool {
        &&& self.arithmetic == before.arithmetic
        &&& self.compare == before.compare
        &&& self.display == before.display
        &&& self.native == before.native
        &&& self.built_in_fn == before.built_in_fn
    }

    /// This interpreter is `before` after a statement that ended in
    /// `outcome`, and `r` reports how it ended.
    pub open spec fn ends(
        &self,
        before: &Self,
        outcome: Outcome,
        r: Result<(), RendererError>,
    ) -> bool {
        &&& self@ == outcome.state
        &&& r == match outcome.error {
            None => Ok::<(), RendererError>(()),
            Some(e) => Err(e),
        }
        &&& self.same_host(before)
    }

    /// An interpreter for the document `env`, with no loop running, nothing
    /// rendered yet and the registry that the library starts with: the one
    /// function `existsIn`, which gives back its first argument. `cap` is
    /// the room, in bytes, to set aside for the rendered text, where it can
    /// be had; it changes nothing in what is rendered.
    pub fn new(env: Value, cap: usize, arithmetic: A, compare: C, display: D, native: N) -> (r:
        Self)
        requires
            arithmetic_sound(&arithmetic),
            order_sound(&compare),
            display_sound(&display),
            native_sound(&native),
        ensures
            r.wf(),
            r@ == initial(env@),
            r.context() == (Context {
                oracle: oracle_of(&arithmetic, &compare, &display, &native),
                natives: registry(),
            }),
    {
        let mut built_in_fn: Vec<Native> = Vec::new();
        built_in_fn.push(
            Native { name: String::from_str("existsIn"), function: Builtin::FirstArgument },
        );
        let tmp_var: Vec<Value> = Vec::new();
        let mut render_result = String::new();
        reserve_text(&mut render_result, cap);
        proof {
            assert(natives_view(built_in_fn@) =~= registry());
            assert(list_view(tmp_var@, tmp_var@.len()) =~= Seq::<Data>::empty());
        }
        Interpreter { env, tmp_var, built_in_fn, render_result, arithmetic, compare, display, native }
    }

    /// Adds a native function to the registry under `name`. An entry that
    /// the registry holds under that name already stays the one that a
    /// call finds. The state of the render is not touched.
    pub fn register(&mut self, name: String, function: Builtin)
        ensures
            final(self).context() == (Context {
                natives: old(self).context().natives.push((name@, function)),
                ..old(self).context()
            }),
            final(self)@ == old(self)@,
            final(self).wf() == old(self).wf(),
    {
        self.built_in_fn.push(Native { name, function });
        assert(natives_view(self.built_in_fn@) =~= natives_view(old(self).built_in_fn@).push(
            (name@, function),
        ));
    }

    /// Replaces what the slot at the end of `path` holds by `value`.
    pub fn put(&mut self, keys: &Vec<Pair>, path: &Vec<Segment>, value: Value) -> (r: Result<
        (),
        RendererError,
    >)
        ensures
            final(self).ends(old(self), put(old(self)@, keys@, steps(path@), value@), r),
    {
        if path.len() == 0 {
            return Err(RendererError::new_from_span(Cause::Unsupported, Span::none()));
        }
        match self.env.store(path, 0, value) {
            Ok(()) => Ok(()),
            Err(at) => Err(missing_at(keys, at)),
        }
    }

    /// An assignment to a subscript chain.
    pub fn get_subs_mut(&mut self, subs: &Pair, value: Value) -> (r: Result<(), RendererError>)
        requires
            old(self).wf(),
        ensures
            final(self).ends(
                old(self),
                write_path(old(self).context(), old(self)@, subs.inner@, value@),
                r,
            ),
    {
        match self.resolve_keys(&subs.inner) {
            Ok(path) => self.put(&subs.inner, &path, value),
            Err(e) => Err(e),
        }
    }

    /// An assignment to a target: an identifier or a subscript chain.
    pub fn get_lvalue_mut(&mut self, lval: &Pair, value: Value) -> (r: Result<(), RendererError>)
        requires
            old(self).wf(),
        ensures
            final(self).ends(
                old(self),
                write_lvalue(old(self).context(), old(self)@, *lval, value@),
                r,
            ),
    {
        if lval.inner.len() == 0 {
            return Err(RendererError::new_from_span(Cause::Unsupported, lval.span));
        }
        let first = &lval.inner[0];
        match first.rule {
            Rule::ident => {
                let mut path: Vec<Segment> = Vec::new();
                path.push(Segment::Key(first.text.clone()));
                assert(steps(path@) =~= seq![Step::Key(first.text@)]);
                self.put(&lval.inner, &path, value)
            },
            Rule::subs => self.get_subs_mut(first, value),
            _ => Err(RendererError::new_from_span(Cause::Unsupported, first.span)),
        }
    }

    /// A `set` statement: evaluates the right-hand side, then assigns it to
    /// the target.
    pub fn assign(&mut self, stmt: &Pair) -> (r: Result<(), RendererError>)
        requires
            old(self).wf(),
        ensures
            final(self).ends(old(self), assign(old(self).context(), old(self)@, *stmt), r),
    {
        if stmt.inner.len() < 2 {
            return Err(RendererError::new_from_span(Cause::Unsupported, stmt.span));
        }
        match self.primary(&stmt.inner[1]) {
            Ok(value) => self.get_lvalue_mut(&stmt.inner[0], value),
            Err(e) => Err(e),
        }
    }

    /// The value of a predicate, which must be a boolean.
    pub fn predicate(&self, node: &Pair) -> (r: Result<bool, RendererError>)
        requires
            self.wf(),
        ensures
            r == predicate(self.context(), self@, *node),
    {
        match self.eval_expr(&node.inner) {
            Ok(Value::Bool(b)) => Ok(b),
            Ok(_) => Err(RendererError::new_from_span(Cause::PredicateNotBoolean, node.span)),
            Err(e) => Err(e),
        }
    }

    /// One section of a template.
    pub fn run_section(&mut self, node: &Pair) -> (r: Result<(), RendererError>)
        requires
            old(self).wf(),
        ensures
            final(self).ends(old(self), run_section(old(self).context(), old(self)@, *node), r),
        decreases node, 1nat, 0nat,
    {
        match node.rule {
            Rule::block => self.visit_block(&node.inner),
            Rule::single_stmt => self.visit_single_stmt(&node.inner),
            Rule::tmpl_literal => {
                self.render_result.append(node.text.as_str());
                Ok(())
            },
            Rule::expr => self.visit_expr(&node.inner),
            Rule::EOI => Ok(()),
            _ => Err(RendererError::new_from_span(Cause::Unsupported, node.span)),
        }
    }

    /// The body of a branch or of a loop.
    pub fn run_body(&mut self, node: &Pair) -> (r: Result<(), RendererError>)
        requires
            old(self).wf(),
        ensures
            final(self).ends(old(self), run_body(old(self).context(), old(self)@, *node), r),
        decreases node, 1nat, 0nat,
    {
        self.visit_tmpl_unit(&node.inner)
    }

    /// One block: a chain of branches or a loop.
    pub fn run_block(&mut self, node: &Pair) -> (r: Result<(), RendererError>)
        requires
            old(self).wf(),
        ensures
            final(self).ends(old(self), run_block(old(self).context(), old(self)@, *node), r),
        decreases node, 1nat, 0nat,
    {
        match node.rule {
            Rule::if_block => self.visit_if_block(&node.inner),
            Rule::for_block => self.visit_for_block(&node.inner),
            _ => Err(RendererError::new_from_span(Cause::Unsupported, node.span)),
        }
    }

    /// The metadata of the innermost running loop, or null where none runs.
    pub fn enclosing(&self) -> (r: Value)
        ensures
            r@ == enclosing_loop(self@.frames),
    {
        proof {
            lemma_list_view(self.tmp_var@, self.tmp_var@.len());
        }
        let depth = self.tmp_var.len();
        if depth > 0 {
            match self.tmp_var[depth - 1].get("loop") {
                Some(meta) => meta.clone(),
                None => Value::Null,
            }
        } else {
            Value::Null
        }
    }

    /// The value that `name` stands for: scope frames are searched innermost
    /// first, then the document.
    pub fn lookup<'a>(&'a self, name: &str) -> (r: Option<&'a Value>)
        ensures
            variable(self@, name@) == match r {
                Some(value) => Some(value@),
                None => None,
            },
    {
        proof {
            lemma_list_view(self.tmp_var@, self.tmp_var@.len());
        }
        let mut depth: usize = self.tmp_var.len();
        while depth > 0
            invariant
                depth <= self.tmp_var.len(),
                self@.frames.len() == self.tmp_var.len(),
                forall|i: int| 0 <= i < self.tmp_var.len() ==> self@.frames[i] == self.tmp_var[i]@,
                variable(self@, name@) == bound(self@, name@, depth as nat),
            decreases depth,
        {
            match self.tmp_var[depth - 1].get(name) {
                Some(value) => {
                    return Some(value);
                },
                None => {},
            }
            depth -= 1;
        }
        self.env.get(name)
    }

    /// The value of an identifier, or the failure that it is not defined.
    pub fn get_val_from_env(&self, pair: &Pair) -> (r: Result<Value, RendererError>)
        ensures
            model(r) == match variable(self@, pair.text@) {
                Some(value) => Ok::<Data, RendererError>(value),
                None => Err(fault(Cause::VariableNotFound, pair.span)),
            },
    {
        match self.lookup(pair.as_str()) {
            Some(value) => Ok(value.clone()),
            None => Err(RendererError::new_from_span(Cause::VariableNotFound, pair.as_span())),
        }
    }

    /// The value of one operand of an expression: a number or a string
    /// literal, a variable, a subscript chain, a call or an expression in
    /// parentheses.
    pub fn primary(&self, pair: &Pair) -> (r: Result<Value, RendererError>)
        requires
            self.wf(),
        ensures
            model(r) == operand(self.context(), self@, *pair),
        decreases pair, 1nat, 0nat,
    {
        match pair.rule {
            Rule::num => literal_value(parse_json_number(pair.as_str()), pair.span),
            Rule::str => {
                if pair.inner.len() > 0 {
                    Ok(Value::String(pair.inner[0].text.clone()))
                } else {
                    Ok(Value::String(String::new()))
                }
            },
            Rule::ident => self.get_val_from_env(pair),
            Rule::subs => self.get_subs(pair),
            Rule::call => self.call_native(&pair.inner),
            Rule::expr => self.eval_expr(&pair.inner),
            _ => Err(RendererError::new_from_span(Cause::Unsupported, pair.span)),
        }
    }

    /// The value of an expression, given as its run of operands and
    /// operators. The state is not changed.
    pub fn eval_expr(&self, expr: &Vec<Pair>) -> (r: Result<Value, RendererError>)
        requires
            self.wf(),
        ensures
            model(r) == eval(self.context(), self@, expr@),
        decreases expr@, 3nat, 0nat,
    {
        match grow(expr) {
            Ok(term) => self.eval_tree(expr, &term),
            Err(at) => Err(RendererError::new_from_span(Cause::Unsupported, span_of(expr, at))),
        }
    }

    /// The value of an expression tree over the nodes of `expr`.
    pub fn eval_tree(&self, expr: &Vec<Pair>, term: &Term) -> (r: Result<Value, RendererError>)
        requires
            self.wf(),
        ensures
            model(r) == eval_term(self.context(), self@, expr@, *term),
        decreases expr@, 2nat, term.size(),
    {
        match term {
            Term::Leaf(at) => {
                if *at < expr.len() {
                    self.primary(&expr[*at])
                } else {
                    Err(RendererError::new_from_span(Cause::Unsupported, Span::none()))
                }
            },
            Term::Binary(at, left, right) => {
                let a = match self.eval_tree(expr, left) {
                    Ok(a) => a,
                    Err(e) => {
                        return Err(e);
                    },
                };
                let b = match self.eval_tree(expr, right) {
                    Ok(b) => b,
                    Err(e) => {
                        return Err(e);
                    },
                };
                if *at < expr.len() {
                    self.infix(&expr[*at], &a, &b)
                } else {
                    Err(RendererError::new_from_span(Cause::Unsupported, Span::none()))
                }
            },
        }
    }

    /// The step that one key of a subscript chain stands for.
    pub fn segment_of(&self, key: &Pair) -> (r: Result<Segment, RendererError>)
        requires
            self.wf(),
        ensures
            segment(self.context(), self@, *key) == match r {
                Ok(s) => Ok::<Step, RendererError>(s@),
                Err(e) => Err(e),
            },
        decreases key, 2nat, 0nat,
    {
        match key.rule {
            Rule::ident => Ok(Segment::Key(key.text.clone())),
            Rule::uint => match parse_uint(key.as_str()) {
                Some(index) => Ok(Segment::Index(index)),
                None => Err(RendererError::new_from_span(Cause::Unsupported, key.span)),
            },
            Rule::str | Rule::expr => match self.primary(key) {
                Ok(Value::String(text)) => Ok(Segment::Key(text)),
                Ok(_) => Err(RendererError::new_from_span(Cause::KeyNotString, key.span)),
                Err(e) => Err(e),
            },
            _ => Err(RendererError::new_from_span(Cause::Unsupported, key.span)),
        }
    }

    /// The path that a chain of keys stands for.
    pub fn resolve_keys(&self, keys: &Vec<Pair>) -> (r: Result<Vec<Segment>, RendererError>)
        requires
            self.wf(),
        ensures
            resolve(self.context(), self@, keys@, 0, Seq::empty()) == match r {
                Ok(path) => Ok::<Seq<Step>, RendererError>(steps(path@)),
                Err(e) => Err(e),
            },
        decreases keys@, 2nat, 1nat,
    {
        let mut path: Vec<Segment> = Vec::new();
        let mut i: usize = 0;
        assert(steps(path@) =~= Seq::empty());
        while i < keys.len()
            invariant
                self.wf(),
                i <= keys.len(),
                resolve(self.context(), self@, keys@, 0, Seq::empty()) == resolve(
                    self.context(),
                    self@,
                    keys@,
                    i as nat,
                    steps(path@),
                ),
            decreases keys.len() - i,
        {
            let ghost before = steps(path@);
            match self.segment_of(&keys[i]) {
                Ok(s) => {
                    path.push(s);
                    assert(steps(path@) =~= before.push(s@));
                },
                Err(e) => {
                    return Err(e);
                },
            }
            i += 1;
        }
        Ok(path)
    }

    /// The value that a subscript chain reads: its first key names a
    /// variable, the others lead on from there.
    pub fn get_subs(&self, subs: &Pair) -> (r: Result<Value, RendererError>)
        requires
            self.wf(),
        ensures
            model(r) == read_path(self.context(), self@, subs.inner@),
        decreases subs, 0nat, 0nat,
    {
        let path = match self.resolve_keys(&subs.inner) {
            Ok(path) => path,
            Err(e) => {
                return Err(e);
            },
        };
        if path.len() == 0 {
            return Err(RendererError::new_from_span(Cause::Unsupported, Span::none()));
        }
        match &path[0] {
            Segment::Key(name) => match self.lookup(name.as_str()) {
                Some(base) => match base.walk(&path, 1) {
                    Ok(value) => Ok(value.clone()),
                    Err(at) => Err(missing_at(&subs.inner, at)),
                },
                None => Err(missing_at(&subs.inner, 0)),
            },
            Segment::Index(_) => Err(
                RendererError::new_from_span(Cause::Unsupported, span_of(&subs.inner, 0)),
            ),
        }
    }

    /// The value of a call: the first node names the function, the others
    /// are its arguments.
    pub fn call_native(&self, nodes: &Vec<Pair>) -> (r: Result<Value, RendererError>)
        requires
            self.wf(),
        ensures
            model(r) == call(self.context(), self@, nodes@),
        decreases nodes@, 3nat, 0nat,
    {
        if nodes.len() == 0 {
            return Err(RendererError::new_from_span(Cause::Unsupported, Span::none()));
        }
        let function = match self.find_native(nodes[0].as_str()) {
            Some(function) => function,
            None => {
                return Err(RendererError::new_from_span(Cause::UnknownFunction, nodes[0].span));
            },
        };
        let mut values: Vec<Value> = Vec::new();
        let mut i: usize = 1;
        proof {
            lemma_list_view(values@, 0);
        }
        while i < nodes.len()
            invariant
                self.wf(),
                1 <= i <= nodes.len(),
                native(self.context().natives, nodes@[0].text@, 0) == Some(function),
                arguments(self.context(), self@, nodes@, 1, Seq::empty()) == arguments(
                    self.context(),
                    self@,
                    nodes@,
                    i as nat,
                    list_view(values@, values@.len()),
                ),
            decreases nodes.len() - i,
        {
            match self.primary(&nodes[i]) {
                Ok(value) => {
                    proof {
                        lemma_list_view_push(values@, value);
                    }
                    values.push(value);
                },
                Err(e) => {
                    return Err(e);
                },
            }
            i += 1;
        }
        self.call_builtin(function, values, nodes[0].span)
    }

    /// The result of a native function on its arguments.
    pub fn call_builtin(&self, function: Builtin, values: Vec<Value>, span: Span) -> (r: Result<
        Value,
        RendererError,
    >)
        requires
            self.wf(),
        ensures
            model(r) == invoke(
                self.context().oracle,
                function,
                list_view(values@, values@.len()),
                span,
            ),
    {
        proof {
            lemma_list_view(values@, values@.len());
        }
        match function {
            Builtin::FirstArgument => {
                let mut values = values;
                if values.len() > 0 {
                    Ok(values.swap_remove(0))
                } else {
                    Err(RendererError::new_from_span(Cause::MissingArgument, span))
                }
            },
            Builtin::Host(id) => {
                let ghost arguments = list_view(values@, values@.len());
                let ghost handed = values;
                let result = (self.native)(id, values);
                proof {
                    assert(native_gives(&self.native, id, arguments, outcome(result))) by {
                        assert(self.native.ensures((id, handed), result));
                    }
                }
                match result {
                    Ok(value) => Ok(value),
                    Err(cause) => Err(RendererError::new_from_span(cause, span)),
                }
            },
        }
    }

    /// The native function that the registry holds under `name`.
    pub fn find_native(&self, name: &str) -> (r: Option<Builtin>)
        ensures
            r == native(self.context().natives, name@, 0),
    {
        let mut i: usize = 0;
        while i < self.built_in_fn.len()
            invariant
                i <= self.built_in_fn.len(),
                native(self.context().natives, name@, 0) == native(
                    self.context().natives,
                    name@,
                    i as nat,
                ),
            decreases self.built_in_fn.len() - i,
        {
            if same_text(self.built_in_fn[i].name.as_str(), name) {
                return Some(self.built_in_fn[i].function);
            }
            i += 1;
        }
        None
    }

    /// The order of two values, where values of their kinds can be compared.
    pub fn order(&self, a: &Value, b: &Value) -> (r: Option<Order>)
        requires
            self.wf(),
        ensures
            r == order_of(self.context().oracle, a@, b@),
    {
        match (a, b) {
            (Value::Number(x), Value::Number(y)) => {
                let order = (self.compare)(*x, *y);
                Some(order)
            },
            (Value::String(s), Value::String(t)) => Some(order_texts(s.as_str(), t.as_str())),
            (Value::Bool(p), Value::Bool(q)) => Some(
                order_integers(if *p { 1 } else { 0 }, if *q { 1 } else { 0 }),
            ),
            (Value::Null, Value::Null) => Some(Order::Equal),
            _ => None,
        }
    }

    /// The value of a binary operator on two values.
    pub fn infix(&self, op: &Pair, a: &Value, b: &Value) -> (r: Result<Value, RendererError>)
        requires
            self.wf(),
        ensures
            model(r) == apply(self.context().oracle, *op, a@, b@),
    {
        match arithmetic_for(op.rule) {
            Some(operator) => match (a, b) {
                (Value::Number(x), Value::Number(y)) => {
                    let result = (self.arithmetic)(operator, *x, *y);
                    match result {
                        Some(n) => Ok(Value::Number(n)),
                        None => Ok(Value::Null),
                    }
                },
                (Value::Number(_), _) => Err(
                    RendererError::new_from_span(Cause::RightOperandNotNumber, op.span),
                ),
                _ => Err(RendererError::new_from_span(Cause::LeftOperandNotNumber, op.span)),
            },
            None => match relation_for(op) {
                Some(relation) => match self.order(a, b) {
                    Some(order) => Ok(Value::Bool(decide(relation, order))),
                    None => Err(
                        RendererError::new_from_span(Cause::OperandsNotComparable, op.span),
                    ),
                },
                None => Err(RendererError::new_from_span(Cause::Unsupported, op.span)),
            },
        }
    }
}

/// The walk over a template: one method for each kind of construct. Each
/// takes the children of the construct's node.
pub trait Visitor {
    /// The visitor can be used: what it needs of its parts holds.
    spec fn ready(&self) -> bool;

    /// An expression section.
    fn visit_expr(&mut self, s: &Vec<Pair>) -> (r: Result<(), RendererError>)
        requires
            old(self).ready(),
        ensures
            final(self).ready(),
    ;

    /// The statements of a statement section.
    fn visit_single_stmt(&mut self, s: &Vec<Pair>) -> (r: Result<(), RendererError>)
        requires
            old(self).ready(),
        ensures
            final(self).ready(),
    ;

    /// A chain of branches.
    fn visit_if_block(&mut self, s: &Vec<Pair>) -> (r: Result<(), RendererError>)
        requires
            old(self).ready(),
        ensures
            final(self).ready(),
    ;

    /// A loop.
    fn visit_for_block(&mut self, s: &Vec<Pair>) -> (r: Result<(), RendererError>)
        requires
            old(self).ready(),
        ensures
            final(self).ready(),
    ;

    /// The blocks of a block section.
    fn visit_block(&mut self, s: &Vec<Pair>) -> (r: Result<(), RendererError>)
        requires
            old(self).ready(),
        ensures
            final(self).ready(),
    ;

    /// The sections of a template.
    fn visit_tmpl_unit(&mut self, s: &Vec<Pair>) -> (r: Result<(), RendererError>)
        requires
            old(self).ready(),
        ensures
            final(self).ready(),
    ;
}

impl<
    A: Fn(Arithmetic, Number, Number) -> Option<Number>,
    C: Fn(Number, Number) -> Order,
    D: Fn(u64) -> String,
    N: Fn(u32, Vec<Value>) -> Result<Value, Cause>,
> Visitor for Interpreter<A, C, D, N> {
    open spec fn ready(&self) -> bool {
        self.wf()
    }

    /// An expression section: appends the value of the expression to the
    /// rendered text.
    fn visit_expr(&mut self, expr: &Vec<Pair>) -> (r: Result<(), RendererError>)
        ensures
            final(self).ends(old(self), print(old(self).context(), old(self)@, expr@), r),
    {
        let value = match self.eval_expr(expr) {
            Ok(value) => value,
            Err(e) => {
                return Err(e);
            },
        };
        match value {
            Value::String(text) => {
                self.render_result.append(text.as_str());
                Ok(())
            },
            Value::Number(Number::Integer(n)) => {
                push_decimal(&mut self.render_result, n);
                Ok(())
            },
            Value::Number(Number::Float(bits)) => {
                let text = (self.display)(bits);
                self.render_result.append(text.as_str());
                Ok(())
            },
            _ => Err(RendererError::new_from_span(Cause::NotPrintable, span_of(expr, 0))),
        }
    }

    /// The statements of `nodes`, in order, up to the first failure.
    fn visit_single_stmt(&mut self, nodes: &Vec<Pair>) -> (r: Result<(), RendererError>)
        ensures
            final(self).ends(
                old(self),
                run_stmts(old(self).context(), old(self)@, nodes@, 0),
                r,
            ),
    {
        let mut i: usize = 0;
        while i < nodes.len()
            invariant
                i <= nodes.len(),
                self.wf(),
                self.same_host(old(self)),
                run_stmts(old(self).context(), old(self)@, nodes@, 0) == run_stmts(
                    self.context(),
                    self@,
                    nodes@,
                    i as nat,
                ),
            decreases nodes.len() - i,
        {
            let node = &nodes[i];
            let outcome = match node.rule {
                Rule::set_stmt => self.assign(node),
                Rule::include_stmt => Ok(()),
                _ => Err(RendererError::new_from_span(Cause::Unsupported, node.span)),
            };
            match outcome {
                Ok(()) => {},
                Err(e) => {
                    return Err(e);
                },
            }
            i += 1;
        }
        Ok(())
    }

    /// A chain of branches: predicates are evaluated in order until one is
    /// true, and the body after it runs; the body of an `else` runs when no
    /// predicate before it was true.
    fn visit_if_block(&mut self, nodes: &Vec<Pair>) -> (r: Result<(), RendererError>)
        ensures
            final(self).ends(
                old(self),
                run_if(old(self).context(), old(self)@, nodes@, 0, None),
                r,
            ),
        decreases nodes@, 2nat, 0nat,
    {
        let mut flag: Option<bool> = None;
        let mut i: usize = 0;
        while i < nodes.len()
            invariant
                i <= nodes.len(),
                self.wf(),
                self.same_host(old(self)),
                run_if(old(self).context(), old(self)@, nodes@, 0, None) == run_if(
                    self.context(),
                    self@,
                    nodes@,
                    i as nat,
                    flag,
                ),
            decreases nodes.len() - i,
        {
            let node = &nodes[i];
            match node.rule {
                Rule::if_stmt | Rule::else_if_stmt => match self.predicate(node) {
                    Ok(b) => {
                        flag = Some(b);
                    },
                    Err(e) => {
                        return Err(e);
                    },
                },
                Rule::if_body | Rule::else_if_body => {
                    if let Some(true) = flag {
                        return self.run_body(node);
                    }
                },
                Rule::else_body => match self.run_body(node) {
                    Ok(()) => {},
                    Err(e) => {
                        return Err(e);
                    },
                },
                _ => {
                    return Err(RendererError::new_from_span(Cause::Unsupported, node.span));
                },
            }
            i += 1;
        }
        Ok(())
    }

    /// A loop, given as its two nodes: the `for` statement and the body.
    /// Each iteration pushes its scope frame, runs the body and pops the
    /// frame again, also where the body fails.
    fn visit_for_block(&mut self, nodes: &Vec<Pair>) -> (r: Result<(), RendererError>)
        ensures
            final(self).ends(old(self), run_for(old(self).context(), old(self)@, nodes@), r),
        decreases nodes@, 3nat, 0nat,
    {
        if nodes.len() != 2 || !matches!(nodes[0].rule, Rule::for_stmt) || !matches!(
            nodes[1].rule,
            Rule::for_body
        ) {
            return Err(RendererError::new_from_span(Cause::Unsupported, span_of(nodes, 0)));
        }
        let head = &nodes[0];
        let names = match names_of(head) {
            Some(names) => names,
            None => {
                return Err(RendererError::new_from_span(Cause::Unsupported, head.span));
            },
        };
        let target = match self.primary(&head.inner[head.inner.len() - 1]) {
            Ok(target) => target,
            Err(e) => {
                return Err(e);
            },
        };
        let count = match entry_count(&target) {
            Some(count) => count,
            None => {
                return Err(RendererError::new_from_span(Cause::NotIterable, head.span));
            },
        };
        let ghost items = entries(target@)->0;
        let mut index: usize = 0;
        while index < count
            invariant
                index <= count,
                count == items.len(),
                entries(target@) == Some(items),
                nodes.len() == 2,
                self.wf(),
                self.same_host(old(self)),
                run_for(old(self).context(), old(self)@, nodes@) == iterate(
                    self.context(),
                    self@,
                    nodes@,
                    texts(names@),
                    items,
                    index as nat,
                ),
            decreases count - index,
        {
            let (key, element) = match entry(&target, index) {
                Some(found) => found,
                None => {
                    return Err(RendererError::new_from_span(Cause::Unsupported, head.span));
                },
            };
            let parent = self.enclosing();
            let scope = make_frame(&names, key, element, index, count, parent);
            let ghost before = self@;
            proof {
                lemma_list_view_push(self.tmp_var@, scope);
            }
            self.tmp_var.push(scope);
            let ghost inside = self@;
            let r = self.run_body(&nodes[1]);
            proof {
                if self.tmp_var@.len() > 0 {
                    lemma_list_view_drop_last(self.tmp_var@);
                }
                lemma_list_view(self.tmp_var@, self.tmp_var@.len());
            }
            self.tmp_var.pop();
            match r {
                Ok(()) => {},
                Err(e) => {
                    return Err(e);
                },
            }
            index += 1;
        }
        Ok(())
    }

    /// The blocks of `nodes`, in order, up to the first failure.
    fn visit_block(&mut self, nodes: &Vec<Pair>) -> (r: Result<(), RendererError>)
        ensures
            final(self).ends(
                old(self),
                run_blocks(old(self).context(), old(self)@, nodes@, 0),
                r,
            ),
        decreases nodes@, 2nat, 0nat,
    {
        let mut i: usize = 0;
        while i < nodes.len()
            invariant
                i <= nodes.len(),
                self.wf(),
                self.same_host(old(self)),
                run_blocks(old(self).context(), old(self)@, nodes@, 0) == run_blocks(
                    self.context(),
                    self@,
                    nodes@,
                    i as nat,
                ),
            decreases nodes.len() - i,
        {
            match self.run_block(&nodes[i]) {
                Ok(()) => {},
                Err(e) => {
                    return Err(e);
                },
            }
            i += 1;
        }
        Ok(())
    }

    /// The sections of a template, in source order, up to the first
    /// failure.
    fn visit_tmpl_unit(&mut self, nodes: &Vec<Pair>) -> (r: Result<(), RendererError>)
        ensures
            final(self).ends(
                old(self),
                run_sections(old(self).context(), old(self)@, nodes@, 0),
                r,
            ),
        decreases nodes@, 2nat, 0nat,
    {
        let mut i: usize = 0;
        while i < nodes.len()
            invariant
                i <= nodes.len(),
                self.wf(),
                self.same_host(old(self)),
                run_sections(old(self).context(), old(self)@, nodes@, 0) == run_sections(
                    self.context(),
                    self@,
                    nodes@,
                    i as nat,
                ),
            decreases nodes.len() - i,
        {
            match self.run_section(&nodes[i]) {
                Ok(()) => {},
                Err(e) => {
                    return Err(e);
                },
            }
            i += 1;
        }
        Ok(())
    }
}

/// Renders a template, given as its sections, against a document: the text
/// of the literal sections and of the values of the expression sections, in
/// source order, with the statements and blocks carried out on the way; or
/// the first failure.
pub fn render<
    A: Fn(Arithmetic, Number, Number) -> Option<Number>,
    C: Fn(Number, Number) -> Order,
    D: Fn(u64) -> String,
    N: Fn(u32, Vec<Value>) -> Result<Value, Cause>,
>(unit: &Vec<Pair>, document: Value, arithmetic: A, compare: C, display: D, native: N) -> (r:
    Result<String, RendererError>)
    requires
        arithmetic_sound(&arithmetic),
        order_sound(&compare),
        display_sound(&display),
        native_sound(&native),
    ensures
        ({
            let cx = Context {
                oracle: oracle_of(&arithmetic, &compare, &display, &native),
                natives: registry(),
            };
            let out = run_sections(cx, initial(document@), unit@, 0);
            match out.error {
                None => r matches Ok(text) && text@ == out.state.output,
                Some(e) => r == Err::<String, RendererError>(e),
            }
        }),
{
    let room = room_for(unit);
    let mut interpreter = Interpreter::new(document, room, arithmetic, compare, display, native);
    match interpreter.visit_tmpl_unit(unit) {
        Ok(()) => Ok(interpreter.render_result),
        Err(e) => Err(e),
    }
}

/// The number of characters that the first `count` sections cover in the
/// template: the lengths of their spans, added up. A section whose span
/// ends before it starts, or whose length would take the sum past
/// `usize::MAX`, is left out of the count.
pub open spec fn room(unit: Seq<Pair>, count: nat) -> nat
    decreases count,
{
    if count == 0 || count > unit.len() {
        0
    } else {
        let before = room(unit, (count - 1) as nat);
        let span = unit[count - 1].span;
        if span.start <= span.end && before + (span.end - span.start) <= usize::MAX {
            (before + (span.end - span.start)) as nat
        } else {
            before
        }
    }
}

/// The room to set aside for the rendered text: the number of characters
/// that the sections cover in the template. A guess that saves moving the
/// text as it grows, and no more.
fn room_for(unit: &Vec<Pair>) -> (r: usize)
    ensures
        r == room(unit@, unit@.len()),
{
    let mut total: usize = 0;
    let mut i: usize = 0;
    while i < unit.len()
        invariant
            i <= unit.len(),
            total == room(unit@, i as nat),
        decreases unit.len() - i,
    {
        let start = unit[i].span.start;
        let end = unit[i].span.end;
        if start <= end && end - start <= usize::MAX - total {
            total = total + (end - start);
        }
        i += 1;
    }
    total
}

/// The texts of a vector of names.
pub open spec fn texts(names: Seq<String>) -> Seq<Seq<char>> {
    names.map_values(|s: String| s@)
}

/// The names that a `for` statement declares.
pub fn names_of(head: &Pair) -> (r: Option<Vec<String>>)
    ensures
        loop_names(*head) == match r {
            Some(names) => Some(texts(names@)),
            None => None,
        },
{
    let nodes = &head.inner;
    if nodes.len() == 2 && matches!(nodes[0].rule, Rule::ident) {
        let mut names: Vec<String> = Vec::new();
        names.push(nodes[0].text.clone());
        assert(texts(names@) =~= seq![nodes[0].text@]);
        Some(names)
    } else if nodes.len() == 3 && matches!(nodes[0].rule, Rule::ident) && matches!(
        nodes[1].rule,
        Rule::ident
    ) {
        let mut names: Vec<String> = Vec::new();
        names.push(nodes[0].text.clone());
        names.push(nodes[1].text.clone());
        assert(texts(names@) =~= seq![nodes[0].text@, nodes[1].text@]);
        Some(names)
    } else {
        None
    }
}

/// The number of elements that a loop over `target` runs through, where
/// `target` is a sequence or a mapping.
pub fn entry_count(target: &Value) -> (r: Option<usize>)
    ensures
        match entries(target@) {
            Some(items) => r == Some(items.len() as usize) && items.len() <= usize::MAX,
            None => r is None,
        },
{
    match target {
        Value::Array(items) => {
            proof {
                lemma_list_view(items@, items@.len());
            }
            Some(items.len())
        },
        Value::Object(members) => {
            proof {
                lemma_dict_view(members@, members@.len());
            }
            Some(members.len())
        },
        _ => None,
    }
}

/// The key (or index) and the element of entry `index` of a loop's target;
/// `None` where the target has no such entry.
pub fn entry(target: &Value, index: usize) -> (r: Option<(Value, Value)>)
    ensures
        match r {
            Some(found) => entries(target@) matches Some(items) && index < items.len() && (
                found.0@,
                found.1@,
            ) == items[index as int],
            None => !(entries(target@) matches Some(items) && index < items.len()),
        },
{
    match target {
        Value::Array(items) => {
            proof {
                lemma_list_view(items@, items@.len());
            }
            if index < items.len() {
                Some((Value::Number(Number::Integer(index as i128)), items[index].clone()))
            } else {
                None
            }
        },
        Value::Object(members) => {
            proof {
                lemma_dict_view(members@, members@.len());
            }
            if index < members.len() {
                Some((Value::String(members[index].key.clone()), members[index].value.clone()))
            } else {
                None
            }
        },
        _ => None,
    }
}

/// An entry of a mapping.
pub fn member(key: &str, value: Value) -> (r: Member)
    ensures
        r.key@ == key@,
        r.value == value,
{
    Member { key: String::from_str(key), value }
}

/// A mapping with the given entries.
pub fn object(members: Vec<Member>) -> (r: Value)
    ensures
        r@ == Data::Dict(Seq::new(members@.len(), |i: int| (members@[i].key@, members@[i].value@))),
{
    proof {
        lemma_dict_view(members@, members@.len());
        assert(dict_view(members@, members@.len()) =~= Seq::new(
            members@.len(),
            |i: int| (members@[i].key@, members@[i].value@),
        ));
    }
    Value::Object(members)
}

/// The scope frame of one iteration of a loop.
pub fn make_frame(
    names: &Vec<String>,
    key: Value,
    element: Value,
    index: usize,
    count: usize,
    parent: Value,
) -> (r: Value)
    ensures
        r@ == frame(texts(names@), key@, element@, index as nat, count as nat, parent@),
{
    let mut meta: Vec<Member> = Vec::new();
    meta.push(member("index", Value::Number(Number::Integer(index as i128))));
    meta.push(member("index1", Value::Number(Number::Integer(index as i128 + 1))));
    meta.push(member("is_first", Value::Bool(index == 0)));
    meta.push(member("is_last", Value::Bool(count > 0 && index == count - 1)));
    meta.push(member("parent", parent));
    let meta = object(meta);
    assert(meta@ == loop_meta(index as nat, count as nat, parent@)) by {
        assert(meta@->Dict_0 =~= loop_meta(index as nat, count as nat, parent@)->Dict_0);
    }
    let mut scope: Vec<Member> = Vec::new();
    scope.push(member("loop", meta));
    if names.len() == 1 {
        scope.push(member(names[0].as_str(), element));
    } else if names.len() == 2 {
        scope.push(member(names[0].as_str(), key));
        scope.push(member(names[1].as_str(), element));
    }
    let scope = object(scope);
    assert(scope@->Dict_0 =~= frame(
        texts(names@),
        key@,
        element@,
        index as nat,
        count as nat,
        parent@,
    )->Dict_0);
    scope
}

/// The value of a number literal at `span`, given what was read from its
/// text.
pub fn literal_value(found: Option<Number>, span: Span) -> (r: Result<Value, RendererError>)
    ensures
        model(r) == number_literal(found, span),
{
    match found {
        Some(n) => Ok(Value::Number(n)),
        None => Err(RendererError::new_from_span(Cause::Unsupported, span)),
    }
}

/// The failure of a path whose step `at` leads nowhere.
pub fn missing_at(keys: &Vec<Pair>, at: usize) -> (r: RendererError)
    ensures
        r == missing(keys@, at as nat),
{
    if at == 0 {
        RendererError::new_from_span(Cause::VariableNotFound, span_of(keys, 0))
    } else {
        RendererError::new_from_span(Cause::KeyNotFound, span_of(keys, at))
    }
}

/// The arithmetic operator that a rule stands for.
pub fn arithmetic_for(rule: Rule) -> (r: Option<Arithmetic>)
    ensures
        r == arithmetic_of(rule),
{
    match rule {
        Rule::add => Some(Arithmetic::Add),
        Rule::subtract => Some(Arithmetic::Subtract),
        Rule::multiply => Some(Arithmetic::Multiply),
        Rule::divide => Some(Arithmetic::Divide),
        Rule::power => Some(Arithmetic::Power),
        _ => None,
    }
}

/// The comparison that an operator node stands for.
pub fn relation_for(op: &Pair) -> (r: Option<Relation>)
    ensures
        r == relation_of(*op),
{
    if matches!(op.rule, Rule::comparison) && op.inner.len() > 0 {
        match op.inner[0].rule {
            Rule::lt => Some(Relation::Lt),
            Rule::gt => Some(Relation::Gt),
            Rule::ne => Some(Relation::Ne),
            Rule::eq => Some(Relation::Eq),
            Rule::ngt => Some(Relation::Ngt),
            Rule::nlt => Some(Relation::Nlt),
            _ => None,
        }
    } else {
        None
    }
}

} // verus!
