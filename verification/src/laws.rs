//! Laws of the semantics and of the grammar, each proved for every
//! input.

use crate::error::{Cause, ErrorKind, RendererError};
use crate::grammar::{directive, law_literal_template, tmpl_unit};
use crate::kernel::{holds, Oracle};
use crate::parser::{show_all, shows};
use crate::path::{
    law_store_keeps_siblings, law_store_then_walk, law_walk_and_store_fail_alike,
    lemma_walk_fails_behind, Step,
};
use crate::semantics::{
    apply, done, emit, enclosing_loop, entries, eval, failed, fault, iterate, loop_frame, loop_meta,
    loop_names, missing, operand, popped, predicate, print, put, read, relation_of, rendering,
    run_block, run_blocks, run_body, run_for, run_if, run_section, run_sections, run_stmt,
    run_stmts, variable, Context, State,
};
use crate::syntax::{span_at, Pair, Rule};
use crate::value::{first_key, Data, Number};
use vstd::prelude::*;

verus! {

/// The text of the literal sections from `from` on, in source order.
pub open spec fn literal_text(nodes: Seq<Pair>, from: nat) -> Seq<char>
    decreases nodes.len() - from,
{
    if from >= nodes.len() {
        Seq::empty()
    } else if nodes[from as int].rule == Rule::tmpl_literal {
        nodes[from as int].text@ + literal_text(nodes, from + 1)
    } else {
        literal_text(nodes, from + 1)
    }
}

/// A template of literal text alone renders to that text: the output
/// grows by the literal sections in source order, nothing else changes
/// and nothing fails, whatever the document holds.
pub proof fn law_literal_identity(cx: Context, state: State, nodes: Seq<Pair>, from: nat)
    requires
        forall|i: int|
            from <= i < nodes.len() ==> (#[trigger] nodes[i]).rule == Rule::tmpl_literal
                || nodes[i].rule == Rule::EOI,
    ensures
        run_sections(cx, state, nodes, from) == done(emit(state, literal_text(nodes, from))),
    decreases nodes.len() - from,
{
    if from < nodes.len() {
        let node = nodes[from as int];
        let next = run_section(cx, state, node).state;
        law_literal_identity(cx, next, nodes, from + 1);
        if node.rule == Rule::tmpl_literal {
            assert(state.output + (node.text@ + literal_text(nodes, from + 1)) =~= (state.output
                + node.text@) + literal_text(nodes, from + 1));
        } else {
            assert(state.output + literal_text(nodes, from + 1) =~= emit(
                state,
                literal_text(nodes, from + 1),
            ).output);
        }
    } else {
        assert(state.output + Seq::<char>::empty() =~= state.output);
    }
}

/// A comparison gives a boolean or fails; it never gives a number. And a
/// boolean has no place in the output: it is not turned into a number or
/// a text on the way.
pub proof fn law_comparison_gives_boolean(oracle: Oracle, op: Pair, a: Data, b: Data)
    requires
        op.rule == Rule::comparison,
    ensures
        apply(oracle, op, a, b) matches Ok(value) ==> value is Bool,
        forall|flag: bool| rendering(oracle, Data::Bool(flag)) is None,
{
}

/// Two numbers are compared as doubles, whether they are integers or not:
/// the value of a comparison of two numbers is what the relation makes of
/// the order that the kernel gives them.
pub proof fn law_numbers_compare_as_doubles(oracle: Oracle, op: Pair, x: Number, y: Number)
    requires
        relation_of(op) is Some,
    ensures
        apply(oracle, op, Data::Number(x), Data::Number(y)) == Ok::<Data, RendererError>(
            Data::Bool(holds(relation_of(op)->Some_0, (oracle.order)(x, y))),
        ),
{
}

/// The nodes of a chain from `from` on are predicates and the bodies that
/// go with them: there is no `else`.
pub open spec fn without_else(nodes: Seq<Pair>, from: nat) -> bool {
    forall|i: int|
        from <= i < nodes.len() ==> {
            let rule = (#[trigger] nodes[i]).rule;
            rule == Rule::if_stmt || rule == Rule::else_if_stmt || rule == Rule::if_body || rule
                == Rule::else_if_body
        }
}

/// Every predicate of the chain from `from` on is false in `state`.
pub open spec fn all_false(cx: Context, state: State, nodes: Seq<Pair>, from: nat) -> bool {
    forall|i: int|
        from <= i < nodes.len() && ((#[trigger] nodes[i]).rule == Rule::if_stmt || nodes[i].rule
            == Rule::else_if_stmt) ==> predicate(cx, state, nodes[i]) == Ok::<
            bool,
            RendererError,
        >(false)
}

/// A chain without `else` whose predicates are all false does nothing: no
/// body runs, the state stays as it is, and that is no failure.
pub proof fn law_if_all_false(
    cx: Context,
    state: State,
    nodes: Seq<Pair>,
    from: nat,
    flag: Option<bool>,
)
    requires
        without_else(nodes, from),
        all_false(cx, state, nodes, from),
        flag != Some(true),
    ensures
        run_if(cx, state, nodes, from, flag) == done(state),
    decreases nodes.len() - from,
{
    if from < nodes.len() {
        let node = nodes[from as int];
        if node.rule == Rule::if_stmt || node.rule == Rule::else_if_stmt {
            law_if_all_false(cx, state, nodes, from + 1, Some(false));
        } else {
            law_if_all_false(cx, state, nodes, from + 1, flag);
        }
    }
}

/// A chain runs the body of its first true predicate and nothing else:
/// where the predicates before node `at` are false, the one at `at` is
/// true and a body follows it, the chain does exactly what that body
/// does. The predicates and bodies behind it are not looked at.
pub proof fn law_if_first_true(
    cx: Context,
    state: State,
    nodes: Seq<Pair>,
    from: nat,
    flag: Option<bool>,
    at: nat,
)
    requires
        from <= at,
        at + 1 < nodes.len(),
        without_else(nodes.take(at as int), from),
        all_false(cx, state, nodes.take(at as int), from),
        flag != Some(true),
        nodes[at as int].rule == Rule::if_stmt || nodes[at as int].rule == Rule::else_if_stmt,
        predicate(cx, state, nodes[at as int]) == Ok::<bool, RendererError>(true),
        nodes[at as int + 1].rule == Rule::if_body || nodes[at as int + 1].rule == Rule::else_if_body,
    ensures
        run_if(cx, state, nodes, from, flag) == run_body(cx, state, nodes[at as int + 1]),
    decreases at - from,
{
    if from < at {
        let node = nodes[from as int];
        assert(node == nodes.take(at as int)[from as int]);
        if node.rule == Rule::if_stmt || node.rule == Rule::else_if_stmt {
            law_if_first_true(cx, state, nodes, from + 1, Some(false), at);
        } else {
            law_if_first_true(cx, state, nodes, from + 1, flag, at);
        }
    } else {
        assert(run_if(cx, state, nodes, at + 1, Some(true)) == run_body(cx, state, nodes[at as int + 1]));
    }
}

/// Where every predicate of a chain is false, the body of its `else`
/// runs: a chain that ends in an `else` does exactly what that body does.
pub proof fn law_if_else(cx: Context, state: State, nodes: Seq<Pair>, from: nat, flag: Option<bool>)
    requires
        from < nodes.len(),
        without_else(nodes.drop_last(), from),
        all_false(cx, state, nodes.drop_last(), from),
        flag != Some(true),
        nodes.last().rule == Rule::else_body,
    ensures
        run_if(cx, state, nodes, from, flag) == run_body(cx, state, nodes.last()),
    decreases nodes.len() - from,
{
    if from + 1 < nodes.len() {
        let node = nodes[from as int];
        assert(node == nodes.drop_last()[from as int]);
        if node.rule == Rule::if_stmt || node.rule == Rule::else_if_stmt {
            law_if_else(cx, state, nodes, from + 1, Some(false));
        } else {
            law_if_else(cx, state, nodes, from + 1, flag);
        }
    } else {
        let out = run_body(cx, state, nodes.last());
        assert(run_if(cx, out.state, nodes, from + 1, flag) == done(out.state));
    }
}

/// The statements of a statement section leave the scope frames as they
/// are.
pub proof fn law_stmts_keep_frames(cx: Context, state: State, nodes: Seq<Pair>, from: nat)
    ensures
        run_stmts(cx, state, nodes, from).state.frames == state.frames,
    decreases nodes.len() - from,
{
    if from < nodes.len() {
        let out = run_stmt(cx, state, nodes[from as int]);
        if out.error is None {
            law_stmts_keep_frames(cx, out.state, nodes, from + 1);
        }
    }
}

/// The scope frames are a stack that every construct leaves as it found
/// it, whether it succeeds or fails: after the sections from `from` on the
/// frames are those before them.
pub proof fn law_sections_keep_frames(cx: Context, state: State, nodes: Seq<Pair>, from: nat)
    ensures
        run_sections(cx, state, nodes, from).state.frames == state.frames,
    decreases nodes, 2nat, nodes.len() - from,
{
    if from < nodes.len() {
        law_section_keeps_frames(cx, state, nodes[from as int]);
        let out = run_section(cx, state, nodes[from as int]);
        if out.error is None {
            law_sections_keep_frames(cx, out.state, nodes, from + 1);
        }
    }
}

/// One section leaves the scope frames as it found them.
pub proof fn law_section_keeps_frames(cx: Context, state: State, node: Pair)
    ensures
        run_section(cx, state, node).state.frames == state.frames,
        run_body(cx, state, node).state.frames == state.frames,
        run_block(cx, state, node).state.frames == state.frames,
    decreases node, 1nat, 0nat,
{
    law_blocks_keep_frames(cx, state, node.inner@, 0);
    law_stmts_keep_frames(cx, state, node.inner@, 0);
    law_sections_keep_frames(cx, state, node.inner@, 0);
    law_if_keeps_frames(cx, state, node.inner@, 0, None);
    law_for_keeps_frames(cx, state, node.inner@);
}

/// The blocks of a block section leave the scope frames as they found
/// them.
pub proof fn law_blocks_keep_frames(cx: Context, state: State, nodes: Seq<Pair>, from: nat)
    ensures
        run_blocks(cx, state, nodes, from).state.frames == state.frames,
    decreases nodes, 2nat, nodes.len() - from,
{
    if from < nodes.len() {
        law_section_keeps_frames(cx, state, nodes[from as int]);
        let out = run_block(cx, state, nodes[from as int]);
        if out.error is None {
            law_blocks_keep_frames(cx, out.state, nodes, from + 1);
        }
    }
}

/// A chain of branches leaves the scope frames as it found them.
pub proof fn law_if_keeps_frames(
    cx: Context,
    state: State,
    nodes: Seq<Pair>,
    from: nat,
    flag: Option<bool>,
)
    ensures
        run_if(cx, state, nodes, from, flag).state.frames == state.frames,
    decreases nodes, 2nat, nodes.len() - from,
{
    if from < nodes.len() {
        let node = nodes[from as int];
        law_section_keeps_frames(cx, state, node);
        match node.rule {
            Rule::if_stmt | Rule::else_if_stmt => match predicate(cx, state, node) {
                Ok(b) => {
                    law_if_keeps_frames(cx, state, nodes, from + 1, Some(b));
                },
                Err(_) => {},
            },
            Rule::if_body | Rule::else_if_body => {
                if flag != Some(true) {
                    law_if_keeps_frames(cx, state, nodes, from + 1, flag);
                }
            },
            Rule::else_body => {
                let out = run_body(cx, state, node);
                if out.error is None {
                    law_if_keeps_frames(cx, out.state, nodes, from + 1, flag);
                }
            },
            _ => {},
        }
    }
}

/// A loop leaves the scope frames as it found them: the depth of the
/// stack after it is the depth before it, also where its body fails.
pub proof fn law_for_keeps_frames(cx: Context, state: State, nodes: Seq<Pair>)
    ensures
        run_for(cx, state, nodes).state.frames == state.frames,
    decreases nodes, 3nat, 0nat,
{
    if nodes.len() == 2 && nodes[0].rule == Rule::for_stmt && nodes[1].rule == Rule::for_body {
        match loop_names(nodes[0]) {
            None => {},
            Some(names) => match operand(cx, state, nodes[0].inner@.last()) {
                Err(_) => {},
                Ok(target) => match entries(target) {
                    None => {},
                    Some(items) => {
                        law_iterate_keeps_frames(cx, state, nodes, names, items, 0);
                    },
                },
            },
        }
    }
}

/// The iterations of a loop leave the scope frames as they found them.
pub proof fn law_iterate_keeps_frames(
    cx: Context,
    state: State,
    nodes: Seq<Pair>,
    names: Seq<Seq<char>>,
    items: Seq<(Data, Data)>,
    index: nat,
)
    ensures
        iterate(cx, state, nodes, names, items, index).state.frames == state.frames,
    decreases nodes, 2nat, items.len() - index,
{
    if index < items.len() && nodes.len() == 2 {
        let pushed = state.frames.push(loop_frame(state.frames, names, items, index));
        let inside = State { frames: pushed, ..state };
        law_section_keeps_frames(cx, inside, nodes[1]);
        let out = run_body(cx, inside, nodes[1]);
        let after = State { frames: popped(out.state.frames), ..out.state };
        assert(popped(pushed) =~= state.frames);
        if out.error is None {
            law_iterate_keeps_frames(cx, after, nodes, names, items, index + 1);
        }
    }
}

/// A loop over an empty sequence or an empty mapping runs its body not
/// once: it leaves the whole state as it is, and that is no failure.
pub proof fn law_empty_loop(cx: Context, state: State, nodes: Seq<Pair>)
    requires
        nodes.len() == 2,
        nodes[0].rule == Rule::for_stmt,
        nodes[1].rule == Rule::for_body,
        loop_names(nodes[0]) is Some,
        operand(cx, state, nodes[0].inner@.last()) matches Ok(target) && entries(target) matches Some(
            items,
        ) && items.len() == 0,
    ensures
        run_for(cx, state, nodes) == done(state),
{
}

/// The body of iteration `index` sees the loop's metadata under `loop`.
pub proof fn law_loop_binds_meta(
    state: State,
    names: Seq<Seq<char>>,
    items: Seq<(Data, Data)>,
    index: nat,
)
    ensures
        variable(
            State {
                frames: state.frames.push(loop_frame(state.frames, names, items, index)),
                ..state
            },
            "loop"@,
        ) == Some(loop_meta(index, items.len(), enclosing_loop(state.frames))),
{
    let scope = loop_frame(state.frames, names, items, index);
    let inside = State { frames: state.frames.push(scope), ..state };
    assert(inside.frames[inside.frames.len() - 1] == scope);
    assert(first_key(scope->Dict_0, "loop"@, 0) == 0);
}

/// The metadata of a loop: `index` counts the iterations from 0 and
/// `index1` from 1, so `index1` is `index + 1`; `is_first` holds in the
/// first iteration alone and `is_last` in the last alone; `parent` is the
/// metadata of the enclosing loop.
pub proof fn law_loop_meta(index: nat, count: nat, parent: Data)
    requires
        index < count <= usize::MAX,
    ensures
        loop_meta(index, count, parent).member("index"@) == Some(
            Data::Number(Number::Integer(index as i128)),
        ),
        loop_meta(index, count, parent).member("index1"@) == Some(
            Data::Number(Number::Integer((index + 1) as i128)),
        ),
        (index + 1) as i128 == (index as i128) + 1,
        loop_meta(index, count, parent).member("is_first"@) == Some(Data::Bool(index == 0)),
        loop_meta(index, count, parent).member("is_last"@) == Some(
            Data::Bool(index == count - 1),
        ),
        loop_meta(index, count, parent).member("parent"@) == Some(parent),
{
    reveal_strlit("index");
    reveal_strlit("index1");
    reveal_strlit("is_first");
    reveal_strlit("is_last");
    reveal_strlit("parent");
    let members = loop_meta(index, count, parent)->Dict_0;
    assert("index"@.len() != "index1"@.len());
    assert("index"@[1] != "is_first"@[1]);
    assert("index"@[0] != "parent"@[0]);
    assert("index1"@[1] != "is_first"@[1]);
    assert("index1"@[1] != "is_last"@[1]);
    assert("index1"@[0] != "parent"@[0]);
    assert("is_first"@[3] != "is_last"@[3]);
    assert("is_first"@[0] != "parent"@[0]);
    assert("is_last"@[0] != "parent"@[0]);
    assert(first_key(members, "index"@, 0) == 0);
    assert(first_key(members, "index1"@, 0) == 1) by {
        reveal_with_fuel(first_key, 3);
    }
    assert(first_key(members, "is_first"@, 0) == 2) by {
        reveal_with_fuel(first_key, 4);
    }
    assert(first_key(members, "is_last"@, 0) == 3) by {
        reveal_with_fuel(first_key, 5);
    }
    assert(first_key(members, "parent"@, 0) == 4) by {
        reveal_with_fuel(first_key, 6);
    }
}

/// An identifier that no scope frame and not the document binds is an
/// undefined variable.
pub proof fn law_undefined_variable(cx: Context, state: State, node: Pair)
    requires
        node.rule == Rule::ident,
        variable(state, node.text@) is None,
    ensures
        operand(cx, state, node) == Err::<Data, RendererError>(
            fault(Cause::VariableNotFound, node.span),
        ),
        Cause::VariableNotFound.kind() == ErrorKind::UndefinedVariable,
{
}

/// A path whose variable exists and whose later step leads nowhere, such
/// as an index past the end of a sequence, is an undefined path, reported
/// at the key that led nowhere.
pub proof fn law_undefined_path(
    state: State,
    keys: Seq<Pair>,
    path: Seq<Step>,
    name: Seq<char>,
    at: nat,
)
    requires
        path.len() > 0,
        path[0] == Step::Key(name),
        variable(state, name) matches Some(base) && base.walk(path, 1) == Err::<Data, nat>(at),
    ensures
        at >= 1,
        read(state, keys, path) == Err::<Data, RendererError>(
            fault(Cause::KeyNotFound, span_at(keys, at as int)),
        ),
        Cause::KeyNotFound.kind() == ErrorKind::UndefinedPath,
        forall|items: Seq<Data>, index: nat|
            index >= items.len() ==> Data::List(items).child(Step::Index(index)) is None,
{
    lemma_walk_fails_behind(variable(state, name)->Some_0, path, 1);
}

/// A loop over a value that is no sequence and no mapping, such as a
/// number, fails with a type mismatch and changes nothing.
pub proof fn law_not_iterable(cx: Context, state: State, nodes: Seq<Pair>)
    requires
        nodes.len() == 2,
        nodes[0].rule == Rule::for_stmt,
        nodes[1].rule == Rule::for_body,
        loop_names(nodes[0]) is Some,
        operand(cx, state, nodes[0].inner@.last()) matches Ok(target) && !(target is List)
            && !(target is Dict),
    ensures
        run_for(cx, state, nodes) == failed(state, fault(Cause::NotIterable, nodes[0].span)),
        Cause::NotIterable.kind() == ErrorKind::TypeMismatch,
{
}

/// An expression section whose value is a sequence, a mapping, a boolean
/// or null fails with a type mismatch and changes nothing.
pub proof fn law_not_printable(cx: Context, state: State, nodes: Seq<Pair>)
    requires
        eval(cx, state, nodes) matches Ok(value) && !(value is Text) && !(value is Number),
    ensures
        print(cx, state, nodes) == failed(state, fault(Cause::NotPrintable, span_at(nodes, 0))),
        Cause::NotPrintable.kind() == ErrorKind::TypeMismatch,
        Cause::NotPrintable != Cause::NotIterable,
{
}

/// A text without a directive renders to itself: the nodes that show its
/// template add the text to the output and change nothing else, whatever
/// the document holds.
pub proof fn law_literal_text_renders_itself(
    cx: Context,
    state: State,
    s: Seq<char>,
    nodes: Seq<Pair>,
)
    requires
        forall|i: int| 0 <= i < s.len() ==> !directive(s, i),
        tmpl_unit(s) matches Ok(trees) && show_all(nodes, trees, s),
    ensures
        run_sections(cx, state, nodes, 0) == done(emit(state, s)),
{
    law_literal_template(s);
    let trees = tmpl_unit(s)->Ok_0;
    assert forall|i: int| 0 <= i < nodes.len() implies (#[trigger] nodes[i]).rule
        == Rule::tmpl_literal || nodes[i].rule == Rule::EOI by {
        assert(shows(nodes[i], trees[i], s));
    }
    law_literal_identity(cx, state, nodes, 0);
    reveal_with_fuel(literal_text, 3);
    if s.len() > 0 {
        assert(shows(nodes[0], trees[0], s));
        assert(shows(nodes[1], trees[1], s));
        assert(nodes[0].text@ =~= s);
        assert(literal_text(nodes, 0) =~= s);
    } else {
        assert(shows(nodes[0], trees[0], s));
        assert(literal_text(nodes, 0) =~= s);
    }
}

/// The statements of a statement section render nothing.
pub proof fn law_stmts_render_nothing(cx: Context, state: State, nodes: Seq<Pair>, from: nat)
    ensures
        run_stmts(cx, state, nodes, from).state.output == state.output,
    decreases nodes.len() - from,
{
    if from < nodes.len() {
        let out = run_stmt(cx, state, nodes[from as int]);
        if out.error is None {
            law_stmts_render_nothing(cx, out.state, nodes, from + 1);
        }
    }
}

/// Rendering only appends: after the sections from `from` on, whether
/// they succeed or fail, the output starts with the output before them.
/// Branches and loops write to the one output, in place.
pub proof fn law_sections_append(cx: Context, state: State, nodes: Seq<Pair>, from: nat)
    ensures
        state.output.is_prefix_of(run_sections(cx, state, nodes, from).state.output),
    decreases nodes, 2nat, nodes.len() - from,
{
    if from < nodes.len() {
        law_section_appends(cx, state, nodes[from as int]);
        let out = run_section(cx, state, nodes[from as int]);
        if out.error is None {
            law_sections_append(cx, out.state, nodes, from + 1);
        }
    }
}

/// One section only appends to the output.
pub proof fn law_section_appends(cx: Context, state: State, node: Pair)
    ensures
        state.output.is_prefix_of(run_section(cx, state, node).state.output),
        state.output.is_prefix_of(run_body(cx, state, node).state.output),
        state.output.is_prefix_of(run_block(cx, state, node).state.output),
    decreases node, 1nat, 0nat,
{
    law_blocks_append(cx, state, node.inner@, 0);
    law_stmts_render_nothing(cx, state, node.inner@, 0);
    law_sections_append(cx, state, node.inner@, 0);
    law_if_appends(cx, state, node.inner@, 0, None);
    law_for_appends(cx, state, node.inner@);
}

/// The blocks of a block section only append to the output.
pub proof fn law_blocks_append(cx: Context, state: State, nodes: Seq<Pair>, from: nat)
    ensures
        state.output.is_prefix_of(run_blocks(cx, state, nodes, from).state.output),
    decreases nodes, 2nat, nodes.len() - from,
{
    if from < nodes.len() {
        law_section_appends(cx, state, nodes[from as int]);
        let out = run_block(cx, state, nodes[from as int]);
        if out.error is None {
            law_blocks_append(cx, out.state, nodes, from + 1);
        }
    }
}

/// A chain of branches only appends to the output.
pub proof fn law_if_appends(
    cx: Context,
    state: State,
    nodes: Seq<Pair>,
    from: nat,
    flag: Option<bool>,
)
    ensures
        state.output.is_prefix_of(run_if(cx, state, nodes, from, flag).state.output),
    decreases nodes, 2nat, nodes.len() - from,
{
    if from < nodes.len() {
        let node = nodes[from as int];
        law_section_appends(cx, state, node);
        match node.rule {
            Rule::if_stmt | Rule::else_if_stmt => match predicate(cx, state, node) {
                Ok(b) => {
                    law_if_appends(cx, state, nodes, from + 1, Some(b));
                },
                Err(_) => {},
            },
            Rule::if_body | Rule::else_if_body => {
                if flag != Some(true) {
                    law_if_appends(cx, state, nodes, from + 1, flag);
                }
            },
            Rule::else_body => {
                let out = run_body(cx, state, node);
                if out.error is None {
                    law_if_appends(cx, out.state, nodes, from + 1, flag);
                }
            },
            _ => {},
        }
    }
}

/// A loop only appends to the output.
pub proof fn law_for_appends(cx: Context, state: State, nodes: Seq<Pair>)
    ensures
        state.output.is_prefix_of(run_for(cx, state, nodes).state.output),
    decreases nodes, 3nat, 0nat,
{
    if nodes.len() == 2 && nodes[0].rule == Rule::for_stmt && nodes[1].rule == Rule::for_body {
        match loop_names(nodes[0]) {
            None => {},
            Some(names) => match operand(cx, state, nodes[0].inner@.last()) {
                Err(_) => {},
                Ok(target) => match entries(target) {
                    None => {},
                    Some(items) => {
                        law_iterate_appends(cx, state, nodes, names, items, 0);
                    },
                },
            },
        }
    }
}

/// The iterations of a loop only append to the output.
pub proof fn law_iterate_appends(
    cx: Context,
    state: State,
    nodes: Seq<Pair>,
    names: Seq<Seq<char>>,
    items: Seq<(Data, Data)>,
    index: nat,
)
    ensures
        state.output.is_prefix_of(iterate(cx, state, nodes, names, items, index).state.output),
    decreases nodes, 2nat, items.len() - index,
{
    if index < items.len() && nodes.len() == 2 {
        let pushed = state.frames.push(loop_frame(state.frames, names, items, index));
        let inside = State { frames: pushed, ..state };
        law_section_appends(cx, inside, nodes[1]);
        let out = run_body(cx, inside, nodes[1]);
        let after = State { frames: popped(out.state.frames), ..out.state };
        if out.error is None {
            law_iterate_appends(cx, after, nodes, names, items, index + 1);
        }
    }
}

/// An assignment that succeeds changes one slot of the document and
/// nothing else: the slot that its path names holds the value afterwards,
/// a path that parts from it at step `parting` reads what it read before,
/// so the siblings of the slot and everything beside the way to it stay
/// as they are, and the scope frames and the output are not touched.
pub proof fn law_set_changes_one_slot(
    state: State,
    keys: Seq<Pair>,
    path: Seq<Step>,
    value: Data,
    other: Seq<Step>,
    parting: nat,
)
    requires
        put(state, keys, path, value).error is None,
        parting < path.len(),
        parting < other.len(),
        forall|i: int| 0 <= i < parting ==> other[i] == path[i],
        other[parting as int] != path[parting as int],
    ensures
        ({
            let after = put(state, keys, path, value).state;
            &&& after.root.walk(path, 0) == Ok::<Data, nat>(value)
            &&& after.root.walk(other, 0) == state.root.walk(other, 0)
            &&& after.frames == state.frames
            &&& after.output == state.output
        }),
{
    law_store_then_walk(state.root, path, 0, value);
    law_store_keeps_siblings(state.root, path, 0, value, other, parting);
}

/// An assignment that fails changes nothing, and it fails where reading
/// the same path in the document fails: at the first step that leads
/// nowhere.
pub proof fn law_set_fails_like_reading(state: State, keys: Seq<Pair>, path: Seq<Step>, value: Data)
    requires
        path.len() > 0,
    ensures
        match state.root.walk(path, 0) {
            Ok(_) => put(state, keys, path, value).error is None,
            Err(at) => put(state, keys, path, value) == failed(state, missing(keys, at)),
        },
{
    law_walk_and_store_fail_alike(state.root, path, 0, value);
}

} // verus!
