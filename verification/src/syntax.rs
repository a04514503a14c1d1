//! The syntax tree of a template: tagged nodes with their source text and
//! position, as the parser produces them and the interpreter reads them.

use vstd::prelude::*;

verus! {

/// The kind of a syntax node.
#[allow(non_camel_case_types)]
#[derive(Clone, Copy, Debug, PartialEq, Eq, Structural)]
pub enum Rule {
    EOI,
    tmpl_unit,
    tmpl_literal,
    expr,
    block,
    single_stmt,
    set_stmt,
    include_stmt,
    if_block,
    if_stmt,
    if_body,
    else_if_stmt,
    else_if_body,
    else_body,
    for_block,
    for_stmt,
    for_body,
    lvalue,
    subs,
    call,
    ident,
    str,
    str_inner,
    uint,
    num,
    add,
    subtract,
    multiply,
    divide,
    power,
    comparison,
    lt,
    gt,
    ne,
    eq,
    ngt,
    nlt,
}

/// Where a node stands in the template: character offsets, and the line and
/// column of its first character, both counted from 1.
#[derive(Clone, Copy, Debug, PartialEq, Eq, Structural)]
pub struct Span {
    pub start: usize,
    pub end: usize,
    pub line: usize,
    pub column: usize,
}

/// A syntax node: its kind, the source text it matched, its position and
/// its children in source order.
#[derive(Debug, PartialEq)]
pub struct Pair {
    pub rule: Rule,
    pub text: String,
    pub span: Span,
    pub inner: Vec<Pair>,
}

impl Pair {
    pub fn new(rule: Rule, text: String, span: Span, inner: Vec<Pair>) -> (r: Pair)
        ensures
            r.rule == rule,
            r.text == text,
            r.span == span,
            r.inner == inner,
    {
        Pair { rule, text, span, inner }
    }

    pub fn as_rule(&self) -> (r: Rule)
        ensures
            r == self.rule,
    {
        self.rule
    }

    pub fn as_str(&self) -> (r: &str)
        ensures
            r@ == self.text@,
    {
        self.text.as_str()
    }

    pub fn as_span(&self) -> (r: Span)
        ensures
            r == self.span,
    {
        self.span
    }

    pub fn into_inner(&self) -> (r: &Vec<Pair>)
        ensures
            r == &self.inner,
    {
        &self.inner
    }
}

/// The position reported where there is no node to point at.
pub open spec fn no_span() -> Span {
    Span { start: 0, end: 0, line: 0, column: 0 }
}

/// The span of the node at `index`, or [`no_span`] past the end.
pub open spec fn span_at(nodes: Seq<Pair>, index: int) -> Span {
    if 0 <= index < nodes.len() {
        nodes[index].span
    } else {
        no_span()
    }
}

impl Span {
    /// The position reported where there is no node to point at.
    pub fn none() -> (r: Span)
        ensures
            r == no_span(),
    {
        Span { start: 0, end: 0, line: 0, column: 0 }
    }
}

/// The span of the node at `index`, or no position past the end.
pub fn span_of(nodes: &Vec<Pair>, index: usize) -> (r: Span)
    ensures
        r == span_at(nodes@, index as int),
{
    if index < nodes.len() {
        nodes[index].span
    } else {
        Span::none()
    }
}

} // verus!
