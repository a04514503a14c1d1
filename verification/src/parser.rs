//! The parser: from the text of a template to its syntax tree, proved to
//! build the tree that the grammar defines.

use crate::grammar::{
    accessor, accessors, arguments, at, bare, block, branches, call, closing, condition, directive,
    else_if_stmt, enclosed, exponent, expr, expr_section, expr_tail, for_block, for_stmt, fraction,
    gap, ident, if_block, if_stmt, in_class, include_stmt, is_digit, is_letter, keyword, leaf,
    literal_end, loop_variables, lvalue, num, opening, operand, operator, quote, relation, run,
    section, sections, set_stmt, single_stmt, string, subs, tmpl_unit, uint, Class, Style, Tree,
};
use crate::syntax::{Pair, Rule, Span};
use crate::text::push_char;
use vstd::prelude::*;
use vstd::std_specs::iter::IteratorSpec;

verus! {

/// The line and the column of the character at `pos`, both counted from
/// 1; a line ends behind its line feed.
pub open spec fn position_of(s: Seq<char>, pos: int) -> (int, int)
    decreases pos,
{
    if pos <= 0 || pos > s.len() {
        (1, 1)
    } else {
        let (line, column) = position_of(s, pos - 1);
        if s[pos - 1] == '\n' {
            (line + 1, 1)
        } else {
            (line, column + 1)
        }
    }
}

/// A node shows a tree of the grammar over the text `s`: it has the tree's
/// kind and range, it holds the text of that range and the line and column
/// of its start, and its children show the tree's children.
pub open spec fn shows(pair: Pair, tree: Tree, s: Seq<char>) -> bool
    decreases tree,
{
    &&& pair.rule == tree.rule
    &&& 0 <= tree.start <= tree.end <= s.len()
    &&& pair.span.start == tree.start
    &&& pair.span.end == tree.end
    &&& (pair.span.line as int, pair.span.column as int) == position_of(s, tree.start)
    &&& pair.text@ == s.subrange(tree.start, tree.end)
    &&& pair.inner@.len() == tree.children.len()
    &&& forall|i: int|
        0 <= i < tree.children.len() ==> shows(pair.inner@[i], #[trigger] tree.children[i], s)
}

/// Each node shows the tree in its place.
pub open spec fn show_all(pairs: Seq<Pair>, trees: Seq<Tree>, s: Seq<char>) -> bool {
    &&& pairs.len() == trees.len()
    &&& forall|i: int| 0 <= i < trees.len() ==> shows(pairs[i], #[trigger] trees[i], s)
}

/// Lines and columns stay within the position that they belong to.
pub proof fn lemma_position_bounds(s: Seq<char>, pos: int)
    ensures
        1 <= position_of(s, pos).0 <= pos + 1 || pos < 0,
        1 <= position_of(s, pos).1 <= pos + 1 || pos < 0,
        pos < 0 ==> position_of(s, pos) == (1int, 1int),
    decreases pos,
{
    if 0 < pos <= s.len() {
        lemma_position_bounds(s, pos - 1);
    }
}

/// A text to parse: its characters, and the line and column of each
/// position in it, the end included.
pub struct Source {
    pub chars: Vec<char>,
    pub marks: Vec<(usize, usize)>,
}

impl Source {
    /// The lines and columns are those of the positions of the text.
    pub open spec fn wf(&self) -> bool {
        &&& self.chars.len() < usize::MAX
        &&& self.marks.len() == self.chars.len() + 1
        &&& forall|i: int|
            0 <= i <= self.chars.len() ==> ((#[trigger] self.marks[i]).0 as int, self.marks[i].1 as int)
                == position_of(self.chars@, i)
    }

    /// The text with the line and column of each of its positions; `None`
    /// for a text of `usize::MAX` characters.
    pub fn new(chars: Vec<char>) -> (r: Option<Source>)
        ensures
            match r {
                Some(source) => source.wf() && source.chars == chars,
                None => chars.len() >= usize::MAX,
            },
    {
        if chars.len() == usize::MAX {
            return None;
        }
        let mut marks: Vec<(usize, usize)> = Vec::new();
        marks.push((1, 1));
        let mut line: usize = 1;
        let mut column: usize = 1;
        let mut i: usize = 0;
        while i < chars.len()
            invariant
                i <= chars.len() < usize::MAX,
                marks.len() == i + 1,
                (line as int, column as int) == position_of(chars@, i as int),
                forall|j: int|
                    0 <= j <= i ==> ((#[trigger] marks[j]).0 as int, marks[j].1 as int)
                        == position_of(chars@, j),
            decreases chars.len() - i,
        {
            proof {
                lemma_position_bounds(chars@, i as int);
            }
            if chars[i] == '\n' {
                line += 1;
                column = 1;
            } else {
                column += 1;
            }
            marks.push((line, column));
            i += 1;
        }
        Some(Source { chars, marks })
    }
}

/// A node of kind `rule` over the characters from `start` to `end`, with
/// the children `inner`.
fn node(source: &Source, rule: Rule, start: usize, end: usize, inner: Vec<Pair>) -> (r: Pair)
    requires
        source.wf(),
        start <= end <= source.chars.len(),
    ensures
        r.rule == rule,
        r.span.start == start,
        r.span.end == end,
        (r.span.line as int, r.span.column as int) == position_of(source.chars@, start as int),
        r.text@ == source.chars@.subrange(start as int, end as int),
        r.inner == inner,
{
    let mut text = String::new();
    let mut i: usize = start;
    while i < end
        invariant
            start <= i <= end <= source.chars.len(),
            text@ == source.chars@.subrange(start as int, i as int),
        decreases end - i,
    {
        push_char(&mut text, source.chars[i]);
        assert(text@ =~= source.chars@.subrange(start as int, i + 1));
        i += 1;
    }
    let (line, column) = source.marks[start];
    Pair { rule, text, span: Span { start, end, line, column }, inner }
}

/// A node without children.
fn token(source: &Source, rule: Rule, start: usize, end: usize) -> (r: Pair)
    requires
        source.wf(),
        start <= end <= source.chars.len(),
    ensures
        shows(r, leaf(rule, start as int, end as int), source.chars@),
{
    node(source, rule, start, end, Vec::new())
}

/// Whether `text` stands at `pos`.
fn looking_at(source: &Source, pos: usize, text: &str) -> (r: bool)
    requires
        pos <= source.chars.len(),
    ensures
        r == at(source.chars@, pos as int, text@),
{
    let len = text.unicode_len();
    if len > source.chars.len() - pos {
        return false;
    }
    let mut i: usize = 0;
    while i < len
        invariant
            i <= len,
            len == text@.len(),
            pos + len <= source.chars.len(),
            source.chars@.subrange(pos as int, pos + i) == text@.subrange(0, i as int),
        decreases len - i,
    {
        if source.chars[pos + i] != text.get_char(i) {
            assert(source.chars@.subrange(pos as int, pos + len)[i as int] != text@[i as int]);
            return false;
        }
        assert(source.chars@.subrange(pos as int, pos + i + 1) =~= source.chars@.subrange(
            pos as int,
            pos + i,
        ).push(source.chars@[pos + i]));
        assert(text@.subrange(0, i + 1) =~= text@.subrange(0, i as int).push(text@[i as int]));
        i += 1;
    }
    assert(text@.subrange(0, len as int) =~= text@);
    true
}

fn digit(c: char) -> (r: bool)
    ensures
        r == is_digit(c),
{
    '0' <= c && c <= '9'
}

fn letter(c: char) -> (r: bool)
    ensures
        r == is_letter(c),
{
    ('a' <= c && c <= 'z') || ('A' <= c && c <= 'Z') || c == '_'
}

fn member_of(class: Class, c: char) -> (r: bool)
    ensures
        r == in_class(class, c),
{
    match class {
        Class::Digit => digit(c),
        Class::Word => letter(c) || digit(c),
        Class::Blank => c == ' ' || c == '\t',
        Class::Space => c == ' ' || c == '\t' || c == '\n' || c == '\r',
    }
}

/// The end of the longest run of characters of `class` from `pos` on.
fn scan(source: &Source, pos: usize, class: Class) -> (r: usize)
    requires
        pos <= source.chars.len(),
    ensures
        r == run(source.chars@, pos as int, class),
        pos <= r <= source.chars.len(),
{
    let mut i: usize = pos;
    while i < source.chars.len() && member_of(class, source.chars[i])
        invariant
            pos <= i <= source.chars.len(),
            run(source.chars@, pos as int, class) == run(source.chars@, i as int, class),
        decreases source.chars.len() - i,
    {
        i += 1;
    }
    i
}

/// Whether the word `text` stands at `pos` and ends there.
fn is_keyword(source: &Source, pos: usize, text: &str) -> (r: bool)
    requires
        pos <= source.chars.len(),
    ensures
        r == keyword(source.chars@, pos as int, text@),
        r ==> pos + text@.len() <= source.chars.len(),
{
    if !looking_at(source, pos, text) {
        return false;
    }
    let end = pos + text.unicode_len();
    !(end < source.chars.len() && member_of(Class::Word, source.chars[end]))
}

/// An identifier.
fn parse_ident(source: &Source, pos: usize) -> (r: Option<Pair>)
    requires
        source.wf(),
        pos <= source.chars.len(),
    ensures
        match ident(source.chars@, pos as int) {
            Some(tree) => r matches Some(pair) && shows(pair, tree, source.chars@) && pos < tree.end,
            None => r is None,
        },
{
    if pos < source.chars.len() && letter(source.chars[pos]) {
        let end = scan(source, pos + 1, Class::Word);
        Some(token(source, Rule::ident, pos, end))
    } else {
        None
    }
}

/// An unsigned integer.
fn parse_index(source: &Source, pos: usize) -> (r: Option<Pair>)
    requires
        source.wf(),
        pos <= source.chars.len(),
    ensures
        match uint(source.chars@, pos as int) {
            Some(tree) => r matches Some(pair) && shows(pair, tree, source.chars@) && pos < tree.end,
            None => r is None,
        },
{
    if pos < source.chars.len() && digit(source.chars[pos]) {
        let end = scan(source, pos + 1, Class::Digit);
        Some(token(source, Rule::uint, pos, end))
    } else {
        None
    }
}

/// The end of the fraction of a number.
fn scan_fraction(source: &Source, pos: usize) -> (r: usize)
    requires
        source.wf(),
        pos <= source.chars.len(),
    ensures
        r == fraction(source.chars@, pos as int),
        pos <= r <= source.chars.len(),
{
    if pos + 1 < source.chars.len() && source.chars[pos] == '.' && digit(source.chars[pos + 1]) {
        scan(source, pos + 2, Class::Digit)
    } else {
        pos
    }
}

/// The end of the exponent of a number.
fn scan_exponent(source: &Source, pos: usize) -> (r: usize)
    requires
        source.wf(),
        pos <= source.chars.len(),
    ensures
        r == exponent(source.chars@, pos as int),
        pos <= r <= source.chars.len(),
{
    if pos + 1 < source.chars.len() && (source.chars[pos] == 'e' || source.chars[pos] == 'E') {
        let digits: usize = if source.chars[pos + 1] == '+' || source.chars[pos + 1] == '-' {
            pos + 2
        } else {
            pos + 1
        };
        if digits < source.chars.len() && digit(source.chars[digits]) {
            scan(source, digits + 1, Class::Digit)
        } else {
            pos
        }
    } else {
        pos
    }
}

/// A number.
fn parse_num(source: &Source, pos: usize) -> (r: Option<Pair>)
    requires
        source.wf(),
        pos <= source.chars.len(),
    ensures
        match num(source.chars@, pos as int) {
            Some(tree) => r matches Some(pair) && shows(pair, tree, source.chars@) && pos < tree.end,
            None => r is None,
        },
{
    if pos < source.chars.len() && digit(source.chars[pos]) {
        let whole: usize = if source.chars[pos] == '0' {
            pos + 1
        } else {
            scan(source, pos + 1, Class::Digit)
        };
        let end = scan_exponent(source, scan_fraction(source, whole));
        Some(token(source, Rule::num, pos, end))
    } else {
        None
    }
}

/// The position of the first `"` at or after `pos`, or the end of the
/// text.
fn scan_quote(source: &Source, pos: usize) -> (r: usize)
    requires
        pos <= source.chars.len(),
    ensures
        r == quote(source.chars@, pos as int),
        pos <= r <= source.chars.len(),
{
    let mut i: usize = pos;
    while i < source.chars.len() && source.chars[i] != '"'
        invariant
            pos <= i <= source.chars.len(),
            quote(source.chars@, pos as int) == quote(source.chars@, i as int),
        decreases source.chars.len() - i,
    {
        i += 1;
    }
    i
}

/// A string.
fn parse_string(source: &Source, pos: usize) -> (r: Option<Pair>)
    requires
        source.wf(),
        pos <= source.chars.len(),
    ensures
        match string(source.chars@, pos as int) {
            Some(tree) => r matches Some(pair) && shows(pair, tree, source.chars@) && pos < tree.end,
            None => r is None,
        },
{
    if pos < source.chars.len() && source.chars[pos] == '"' {
        let close = scan_quote(source, pos + 1);
        if close < source.chars.len() {
            let mut inner: Vec<Pair> = Vec::new();
            inner.push(token(source, Rule::str_inner, pos + 1, close));
            Some(node(source, Rule::str, pos, close + 1, inner))
        } else {
            None
        }
    } else {
        None
    }
}

/// The comparison operator that stands at `pos`, with its end.
fn parse_relation(source: &Source, pos: usize) -> (r: Option<(Rule, usize)>)
    requires
        pos <= source.chars.len(),
    ensures
        match relation(source.chars@, pos as int) {
            Some((rule, end)) => r == Some((rule, end as usize)) && pos < end <= source.chars.len(),
            None => r is None,
        },
{
    proof {
        reveal_strlit("<=");
        reveal_strlit(">=");
        reveal_strlit("!=");
        reveal_strlit("==");
        reveal_strlit("<");
        reveal_strlit(">");
    }
    if looking_at(source, pos, "<=") {
        Some((Rule::ngt, pos + 2))
    } else if looking_at(source, pos, ">=") {
        Some((Rule::nlt, pos + 2))
    } else if looking_at(source, pos, "!=") {
        Some((Rule::ne, pos + 2))
    } else if looking_at(source, pos, "==") {
        Some((Rule::eq, pos + 2))
    } else if looking_at(source, pos, "<") {
        Some((Rule::lt, pos + 1))
    } else if looking_at(source, pos, ">") {
        Some((Rule::gt, pos + 1))
    } else {
        None
    }
}

/// The binary operator that stands at `pos`.
fn parse_operator(source: &Source, pos: usize) -> (r: Option<Pair>)
    requires
        source.wf(),
        pos <= source.chars.len(),
    ensures
        match operator(source.chars@, pos as int) {
            Some(tree) => r matches Some(pair) && shows(pair, tree, source.chars@) && pos < tree.end,
            None => r is None,
        },
{
    match parse_relation(source, pos) {
        Some((rule, end)) => {
            let mut inner: Vec<Pair> = Vec::new();
            inner.push(token(source, rule, pos, end));
            Some(node(source, Rule::comparison, pos, end, inner))
        },
        None => {
            if pos < source.chars.len() {
                let c = source.chars[pos];
                if c == '+' {
                    Some(token(source, Rule::add, pos, pos + 1))
                } else if c == '-' {
                    Some(token(source, Rule::subtract, pos, pos + 1))
                } else if c == '*' {
                    Some(token(source, Rule::multiply, pos, pos + 1))
                } else if c == '/' {
                    Some(token(source, Rule::divide, pos, pos + 1))
                } else if c == '^' {
                    Some(token(source, Rule::power, pos, pos + 1))
                } else {
                    None
                }
            } else {
                None
            }
        },
    }
}

/// Showing goes on when a node is appended on one side and the tree that
/// it shows on the other.
pub proof fn lemma_show_push(pairs: Seq<Pair>, trees: Seq<Tree>, pair: Pair, tree: Tree, s: Seq<char>)
    requires
        show_all(pairs, trees, s),
        shows(pair, tree, s),
    ensures
        show_all(pairs.push(pair), trees.push(tree), s),
{
    assert forall|i: int| 0 <= i < trees.push(tree).len() implies shows(
        pairs.push(pair)[i],
        #[trigger] trees.push(tree)[i],
        s,
    ) by {
        if i < trees.len() {
            assert(shows(pairs[i], trees[i], s));
        }
    }
}

/// A node over the characters from `start` to `end` whose children show
/// the trees `children`.
fn branch(
    source: &Source,
    rule: Rule,
    start: usize,
    end: usize,
    inner: Vec<Pair>,
    Ghost(children): Ghost<Seq<Tree>>,
) -> (r: Pair)
    requires
        source.wf(),
        start <= end <= source.chars.len(),
        show_all(inner@, children, source.chars@),
    ensures
        shows(r, Tree { rule, start: start as int, end: end as int, children }, source.chars@),
{
    node(source, rule, start, end, inner)
}

/// An expression.
fn parse_expr(source: &Source, pos: usize) -> (r: Option<Pair>)
    requires
        source.wf(),
        pos <= source.chars.len(),
    ensures
        match expr(source.chars@, pos as int) {
            Some(tree) => r matches Some(pair) && shows(pair, tree, source.chars@) && pos < tree.end,
            None => r is None,
        },
    decreases source.chars.len() - pos, 5nat,
{
    match parse_operand(source, pos) {
        Some(first) => {
            let ghost tree = operand(source.chars@, pos as int)->Some_0;
            let ghost start_trees = seq![tree];
            let from = first.span.end;
            let mut children: Vec<Pair> = Vec::new();
            children.push(first);
            proof {
                assert(show_all(children@, seq![tree], source.chars@));
            }
            let (children, end) = parse_expr_tail(source, from, children, Ghost(start_trees));
            Some(
                branch(
                    source,
                    Rule::expr,
                    pos,
                    end,
                    children,
                    Ghost(expr_tail(source.chars@, from as int, seq![tree]).0),
                ),
            )
        },
        None => None,
    }
}

/// The operators and operands that follow an operand.
fn parse_expr_tail(
    source: &Source,
    pos: usize,
    children: Vec<Pair>,
    Ghost(trees): Ghost<Seq<Tree>>,
) -> (r: (Vec<Pair>, usize))
    requires
        source.wf(),
        pos <= source.chars.len(),
        show_all(children@, trees, source.chars@),
    ensures
        r.1 == expr_tail(source.chars@, pos as int, trees).1,
        show_all(r.0@, expr_tail(source.chars@, pos as int, trees).0, source.chars@),
        pos <= r.1 <= source.chars.len(),
    decreases source.chars.len() - pos, 6nat,
{
    let start = scan(source, pos, Class::Space);
    match parse_operator(source, start) {
        Some(op) => {
            let ghost op_tree = operator(source.chars@, start as int)->Some_0;
            let next = scan(source, op.span.end, Class::Space);
            match parse_operand(source, next) {
                Some(right) => {
                    let ghost right_tree = operand(source.chars@, next as int)->Some_0;
                    let end = right.span.end;
                    let mut children = children;
                    proof {
                        lemma_show_push(children@, trees, op, op_tree, source.chars@);
                        lemma_show_push(
                            children@.push(op),
                            trees.push(op_tree),
                            right,
                            right_tree,
                            source.chars@,
                        );
                    }
                    children.push(op);
                    children.push(right);
                    parse_expr_tail(
                        source,
                        end,
                        children,
                        Ghost(trees.push(op_tree).push(right_tree)),
                    )
                },
                None => (children, pos),
            }
        },
        None => (children, pos),
    }
}

/// An operand.
fn parse_operand(source: &Source, pos: usize) -> (r: Option<Pair>)
    requires
        source.wf(),
        pos <= source.chars.len(),
    ensures
        match operand(source.chars@, pos as int) {
            Some(tree) => r matches Some(pair) && shows(pair, tree, source.chars@) && pos < tree.end,
            None => r is None,
        },
    decreases source.chars.len() - pos, 4nat,
{
    match parse_num(source, pos) {
        Some(pair) => {
            return Some(pair);
        },
        None => {},
    }
    match parse_string(source, pos) {
        Some(pair) => {
            return Some(pair);
        },
        None => {},
    }
    match parse_call(source, pos) {
        Some(pair) => {
            return Some(pair);
        },
        None => {},
    }
    match parse_subs(source, pos) {
        Some(pair) => {
            return Some(pair);
        },
        None => {},
    }
    match parse_ident(source, pos) {
        Some(pair) => {
            return Some(pair);
        },
        None => {},
    }
    if pos < source.chars.len() && source.chars[pos] == '(' {
        match parse_enclosed(source, pos + 1, ')') {
            Some((inner, end)) => Some(
                wrap(
                    source,
                    Rule::expr,
                    pos,
                    end,
                    inner,
                    Ghost(enclosed(source.chars@, pos + 1, ')')->Some_0.0),
                ),
            ),
            None => None,
        }
    } else {
        None
    }
}

/// An expression with blanks around it and `close` behind it.
fn parse_enclosed(source: &Source, pos: usize, close: char) -> (r: Option<(Pair, usize)>)
    requires
        source.wf(),
        pos <= source.chars.len(),
    ensures
        match enclosed(source.chars@, pos as int, close) {
            Some((tree, end)) => r matches Some((pair, stop)) && shows(pair, tree, source.chars@) && stop
                == end && pos < tree.end < end <= source.chars.len(),
            None => r is None,
        },
    decreases source.chars.len() - pos, 7nat,
{
    let start = scan(source, pos, Class::Space);
    match parse_expr(source, start) {
        Some(inner) => {
            let end = scan(source, inner.span.end, Class::Space);
            if end < source.chars.len() && source.chars[end] == close {
                Some((inner, end + 1))
            } else {
                None
            }
        },
        None => None,
    }
}

/// A subscript chain.
fn parse_subs(source: &Source, pos: usize) -> (r: Option<Pair>)
    requires
        source.wf(),
        pos <= source.chars.len(),
    ensures
        match subs(source.chars@, pos as int) {
            Some(tree) => r matches Some(pair) && shows(pair, tree, source.chars@) && pos < tree.end,
            None => r is None,
        },
    decreases source.chars.len() - pos, 3nat,
{
    match parse_ident(source, pos) {
        Some(name) => {
            let ghost tree = ident(source.chars@, pos as int)->Some_0;
            let ghost start_trees = seq![tree];
            let from = name.span.end;
            let mut children: Vec<Pair> = Vec::new();
            children.push(name);
            proof {
                assert(show_all(children@, seq![tree], source.chars@));
            }
            let (children, end) = parse_accessors(source, from, children, Ghost(start_trees));
            if children.len() > 1 {
                Some(
                    branch(
                        source,
                        Rule::subs,
                        pos,
                        end,
                        children,
                        Ghost(accessors(source.chars@, from as int, seq![tree]).0),
                    ),
                )
            } else {
                None
            }
        },
        None => None,
    }
}

/// One accessor.
fn parse_accessor(source: &Source, pos: usize) -> (r: Option<(Pair, usize)>)
    requires
        source.wf(),
        pos <= source.chars.len(),
    ensures
        match accessor(source.chars@, pos as int) {
            Some((tree, end)) => r matches Some((pair, stop)) && shows(pair, tree, source.chars@) && stop
                == end && pos < end <= source.chars.len(),
            None => r is None,
        },
    decreases source.chars.len() - pos, 8nat,
{
    if pos < source.chars.len() && source.chars[pos] == '.' {
        match parse_ident(source, pos + 1) {
            Some(name) => {
                let end = name.span.end;
                Some((name, end))
            },
            None => None,
        }
    } else if pos < source.chars.len() && source.chars[pos] == '[' {
        let start = scan(source, pos + 1, Class::Space);
        match parse_index(source, start) {
            Some(index) => {
                let end = scan(source, index.span.end, Class::Space);
                if end < source.chars.len() && source.chars[end] == ']' {
                    Some((index, end + 1))
                } else {
                    parse_enclosed(source, pos + 1, ']')
                }
            },
            None => parse_enclosed(source, pos + 1, ']'),
        }
    } else {
        None
    }
}

/// The accessors from `pos` on.
fn parse_accessors(
    source: &Source,
    pos: usize,
    children: Vec<Pair>,
    Ghost(trees): Ghost<Seq<Tree>>,
) -> (r: (Vec<Pair>, usize))
    requires
        source.wf(),
        pos <= source.chars.len(),
        show_all(children@, trees, source.chars@),
    ensures
        r.1 == accessors(source.chars@, pos as int, trees).1,
        show_all(r.0@, accessors(source.chars@, pos as int, trees).0, source.chars@),
        pos <= r.1 <= source.chars.len(),
    decreases source.chars.len() - pos, 9nat,
{
    match parse_accessor(source, pos) {
        Some((key, end)) => {
            let ghost tree = accessor(source.chars@, pos as int)->Some_0.0;
            let mut children = children;
            proof {
                lemma_show_push(children@, trees, key, tree, source.chars@);
            }
            children.push(key);
            parse_accessors(source, end, children, Ghost(trees.push(tree)))
        },
        None => (children, pos),
    }
}

/// A call.
fn parse_call(source: &Source, pos: usize) -> (r: Option<Pair>)
    requires
        source.wf(),
        pos <= source.chars.len(),
    ensures
        match call(source.chars@, pos as int) {
            Some(tree) => r matches Some(pair) && shows(pair, tree, source.chars@) && pos < tree.end,
            None => r is None,
        },
    decreases source.chars.len() - pos, 3nat,
{
    match parse_ident(source, pos) {
        Some(name) => {
            let ghost tree = ident(source.chars@, pos as int)->Some_0;
            let ghost start_trees = seq![tree];
            let from = name.span.end;
            if from < source.chars.len() && source.chars[from] == '(' {
                let mut children: Vec<Pair> = Vec::new();
                children.push(name);
                proof {
                    assert(show_all(children@, seq![tree], source.chars@));
                }
                let start = scan(source, from + 1, Class::Space);
                if start < source.chars.len() && source.chars[start] == ')' {
                    Some(branch(source, Rule::call, pos, start + 1, children, Ghost(start_trees)))
                } else {
                    match parse_arguments(source, from + 1, children, Ghost(start_trees)) {
                        Some((children, end)) => Some(
                            branch(
                                source,
                                Rule::call,
                                pos,
                                end,
                                children,
                                Ghost(arguments(source.chars@, from + 1, seq![tree])->Some_0.0),
                            ),
                        ),
                        None => None,
                    }
                }
            } else {
                None
            }
        },
        None => None,
    }
}

/// The arguments of a call.
fn parse_arguments(
    source: &Source,
    pos: usize,
    children: Vec<Pair>,
    Ghost(trees): Ghost<Seq<Tree>>,
) -> (r: Option<(Vec<Pair>, usize)>)
    requires
        source.wf(),
        pos <= source.chars.len(),
        show_all(children@, trees, source.chars@),
    ensures
        match arguments(source.chars@, pos as int, trees) {
            Some((found, end)) => r matches Some((pairs, stop)) && show_all(pairs@, found, source.chars@)
                && stop == end && pos < end <= source.chars.len(),
            None => r is None,
        },
    decreases source.chars.len() - pos, 9nat,
{
    let start = scan(source, pos, Class::Space);
    match parse_expr(source, start) {
        Some(argument) => {
            let ghost tree = expr(source.chars@, start as int)->Some_0;
            let end = scan(source, argument.span.end, Class::Space);
            let mut children = children;
            proof {
                lemma_show_push(children@, trees, argument, tree, source.chars@);
            }
            if end < source.chars.len() && source.chars[end] == ')' {
                children.push(argument);
                Some((children, end + 1))
            } else if end < source.chars.len() && source.chars[end] == ',' {
                children.push(argument);
                parse_arguments(source, end + 1, children, Ghost(trees.push(tree)))
            } else {
                None
            }
        },
        None => None,
    }
}

/// The opening of a statement.
fn parse_opening(source: &Source, pos: usize) -> (r: Option<(Style, usize)>)
    requires
        pos <= source.chars.len(),
    ensures
        match opening(source.chars@, pos as int) {
            Some((style, first)) => r == Some((style, first as usize)) && pos + 2 <= first
                <= source.chars.len(),
            None => r is None,
        },
{
    proof {
        reveal_strlit("{%");
        reveal_strlit("##");
    }
    if looking_at(source, pos, "{%") {
        Some((Style::Tag, scan(source, pos + 2, Class::Space)))
    } else if looking_at(source, pos, "##") {
        Some((Style::Line, scan(source, pos + 2, Class::Blank)))
    } else {
        None
    }
}

fn gap_of(style: Style) -> (r: Class)
    ensures
        r == gap(style),
{
    match style {
        Style::Tag => Class::Space,
        Style::Line => Class::Blank,
    }
}

/// The closing of a statement.
fn parse_closing(source: &Source, pos: usize, style: Style) -> (r: Option<usize>)
    requires
        pos <= source.chars.len(),
    ensures
        match closing(source.chars@, pos as int, style) {
            Some(end) => r == Some(end as usize) && pos <= end <= source.chars.len(),
            None => r is None,
        },
{
    proof {
        reveal_strlit("%}");
        reveal_strlit("\r\n");
    }
    let end = scan(source, pos, gap_of(style));
    match style {
        Style::Tag => {
            if looking_at(source, end, "%}") {
                Some(end + 2)
            } else {
                None
            }
        },
        Style::Line => {
            if end >= source.chars.len() {
                Some(end)
            } else if source.chars[end] == '\n' {
                Some(end + 1)
            } else if looking_at(source, end, "\r\n") {
                Some(end + 2)
            } else {
                None
            }
        },
    }
}

/// A statement that is one word.
fn parse_bare(source: &Source, pos: usize, word: &str) -> (r: Option<usize>)
    requires
        pos <= source.chars.len(),
    ensures
        match bare(source.chars@, pos as int, word@) {
            Some(end) => r == Some(end as usize) && pos + 2 <= end <= source.chars.len(),
            None => r is None,
        },
{
    match parse_opening(source, pos) {
        Some((style, first)) => {
            if is_keyword(source, first, word) {
                parse_closing(source, first + word.unicode_len(), style)
            } else {
                None
            }
        },
        None => None,
    }
}

/// The part of a statement behind its keyword.
fn parse_condition(source: &Source, pos: usize, style: Style) -> (r: Option<(Pair, usize)>)
    requires
        source.wf(),
        pos <= source.chars.len(),
    ensures
        match condition(source.chars@, pos as int, style) {
            Some((tree, end)) => r matches Some((pair, stop)) && shows(pair, tree, source.chars@) && stop
                == end && pos < end <= source.chars.len(),
            None => r is None,
        },
{
    match parse_expr(source, scan(source, pos, gap_of(style))) {
        Some(test) => match parse_closing(source, test.span.end, style) {
            Some(end) => Some((test, end)),
            None => None,
        },
        None => None,
    }
}

/// A node with one child.
fn wrap(
    source: &Source,
    rule: Rule,
    start: usize,
    end: usize,
    child: Pair,
    Ghost(tree): Ghost<Tree>,
) -> (r: Pair)
    requires
        source.wf(),
        start <= end <= source.chars.len(),
        shows(child, tree, source.chars@),
    ensures
        shows(
            r,
            Tree { rule, start: start as int, end: end as int, children: seq![tree] },
            source.chars@,
        ),
{
    let mut inner: Vec<Pair> = Vec::new();
    inner.push(child);
    node(source, rule, start, end, inner)
}

/// An `if` statement.
fn parse_if_stmt(source: &Source, pos: usize) -> (r: Option<Pair>)
    requires
        source.wf(),
        pos <= source.chars.len(),
    ensures
        match if_stmt(source.chars@, pos as int) {
            Some(tree) => r matches Some(pair) && shows(pair, tree, source.chars@) && pos < tree.end,
            None => r is None,
        },
{
    proof {
        reveal_strlit("if");
    }
    match parse_opening(source, pos) {
        Some((style, first)) => {
            if is_keyword(source, first, "if") {
                match parse_condition(source, first + 2, style) {
                    Some((test, end)) => Some(
                        wrap(
                            source,
                            Rule::if_stmt,
                            pos,
                            end,
                            test,
                            Ghost(condition(source.chars@, first + 2, style)->Some_0.0),
                        ),
                    ),
                    None => None,
                }
            } else {
                None
            }
        },
        None => None,
    }
}

/// An `else if` statement.
fn parse_else_if_stmt(source: &Source, pos: usize) -> (r: Option<Pair>)
    requires
        source.wf(),
        pos <= source.chars.len(),
    ensures
        match else_if_stmt(source.chars@, pos as int) {
            Some(tree) => r matches Some(pair) && shows(pair, tree, source.chars@) && pos < tree.end,
            None => r is None,
        },
{
    proof {
        reveal_strlit("if");
        reveal_strlit("else");
    }
    match parse_opening(source, pos) {
        Some((style, first)) => {
            if is_keyword(source, first, "else") {
                let second = scan(source, first + 4, gap_of(style));
                if is_keyword(source, second, "if") {
                    match parse_condition(source, second + 2, style) {
                        Some((test, end)) => Some(
                            wrap(
                                source,
                                Rule::else_if_stmt,
                                pos,
                                end,
                                test,
                                Ghost(condition(source.chars@, second + 2, style)->Some_0.0),
                            ),
                        ),
                        None => None,
                    }
                } else {
                    None
                }
            } else {
                None
            }
        },
        None => None,
    }
}

/// The names of a `for` statement.
fn parse_loop_variables(source: &Source, pos: usize, style: Style) -> (r: Option<
    (Vec<Pair>, usize),
>)
    requires
        source.wf(),
        pos <= source.chars.len(),
    ensures
        match loop_variables(source.chars@, pos as int, style) {
            Some((trees, end)) => r matches Some((pairs, stop)) && show_all(pairs@, trees, source.chars@)
                && stop == end && pos < end <= source.chars.len(),
            None => r is None,
        },
{
    match parse_ident(source, pos) {
        Some(first) => {
            let ghost first_tree = ident(source.chars@, pos as int)->Some_0;
            let first_end = first.span.end;
            let comma = scan(source, first_end, gap_of(style));
            let mut names: Vec<Pair> = Vec::new();
            names.push(first);
            if comma < source.chars.len() && source.chars[comma] == ',' {
                let from = scan(source, comma + 1, gap_of(style));
                match parse_ident(source, from) {
                    Some(second) => {
                        let ghost second_tree = ident(source.chars@, from as int)->Some_0;
                        let end = second.span.end;
                        names.push(second);
                        proof {
                            assert(show_all(names@, seq![first_tree, second_tree], source.chars@));
                        }
                        Some((names, end))
                    },
                    None => None,
                }
            } else {
                proof {
                    assert(show_all(names@, seq![first_tree], source.chars@));
                }
                Some((names, first_end))
            }
        },
        None => None,
    }
}

/// A `for` statement.
fn parse_for_stmt(source: &Source, pos: usize) -> (r: Option<Pair>)
    requires
        source.wf(),
        pos <= source.chars.len(),
    ensures
        match for_stmt(source.chars@, pos as int) {
            Some(tree) => r matches Some(pair) && shows(pair, tree, source.chars@) && pos < tree.end,
            None => r is None,
        },
{
    proof {
        reveal_strlit("for");
        reveal_strlit("in");
    }
    match parse_opening(source, pos) {
        Some((style, first)) => {
            if is_keyword(source, first, "for") {
                let from = scan(source, first + 3, gap_of(style));
                match parse_loop_variables(source, from, style) {
                    Some((names, end)) => {
                        let ghost name_trees = loop_variables(source.chars@, from as int, style)->Some_0.0;
                        let word = scan(source, end, gap_of(style));
                        if is_keyword(source, word, "in") {
                            match parse_condition(source, word + 2, style) {
                                Some((target, end)) => {
                                    let ghost target_tree = condition(
                                        source.chars@,
                                        word + 2,
                                        style,
                                    )->Some_0.0;
                                    let mut children = names;
                                    proof {
                                        lemma_show_push(
                                            children@,
                                            name_trees,
                                            target,
                                            target_tree,
                                            source.chars@,
                                        );
                                    }
                                    children.push(target);
                                    Some(
                                        branch(
                                            source,
                                            Rule::for_stmt,
                                            pos,
                                            end,
                                            children,
                                            Ghost(name_trees.push(target_tree)),
                                        ),
                                    )
                                },
                                None => None,
                            }
                        } else {
                            None
                        }
                    },
                    None => None,
                }
            } else {
                None
            }
        },
        None => None,
    }
}

/// The target of an assignment.
fn parse_lvalue(source: &Source, pos: usize) -> (r: Option<Pair>)
    requires
        source.wf(),
        pos <= source.chars.len(),
    ensures
        match lvalue(source.chars@, pos as int) {
            Some(tree) => r matches Some(pair) && shows(pair, tree, source.chars@) && pos < tree.end,
            None => r is None,
        },
{
    match parse_subs(source, pos) {
        Some(chain) => {
            let end = chain.span.end;
            Some(wrap(source, Rule::lvalue, pos, end, chain, Ghost(subs(source.chars@, pos as int)->Some_0)))
        },
        None => match parse_ident(source, pos) {
            Some(name) => {
                let end = name.span.end;
                Some(
                    wrap(
                        source,
                        Rule::lvalue,
                        pos,
                        end,
                        name,
                        Ghost(ident(source.chars@, pos as int)->Some_0),
                    ),
                )
            },
            None => None,
        },
    }
}

/// A `set` statement from its keyword on, without the closing.
fn parse_set_stmt(source: &Source, pos: usize, style: Style) -> (r: Option<Pair>)
    requires
        source.wf(),
        pos <= source.chars.len(),
    ensures
        match set_stmt(source.chars@, pos as int, style) {
            Some(tree) => r matches Some(pair) && shows(pair, tree, source.chars@) && pos < tree.end,
            None => r is None,
        },
{
    proof {
        reveal_strlit("set");
    }
    if is_keyword(source, pos, "set") {
        let from = scan(source, pos + 3, gap_of(style));
        match parse_lvalue(source, from) {
            Some(target) => {
                let ghost target_tree = lvalue(source.chars@, from as int)->Some_0;
                let equals = scan(source, target.span.end, gap_of(style));
                if equals < source.chars.len() && source.chars[equals] == '=' {
                    let start = scan(source, equals + 1, gap_of(style));
                    match parse_expr(source, start) {
                        Some(value) => {
                            let ghost value_tree = expr(source.chars@, start as int)->Some_0;
                            let ghost both = seq![target_tree, value_tree];
                            let end = value.span.end;
                            let mut children: Vec<Pair> = Vec::new();
                            children.push(target);
                            children.push(value);
                            proof {
                                assert(show_all(children@, both, source.chars@));
                            }
                            Some(
                                branch(
                                    source,
                                    Rule::set_stmt,
                                    pos,
                                    end,
                                    children,
                                    Ghost(both),
                                ),
                            )
                        },
                        None => None,
                    }
                } else {
                    None
                }
            },
            None => None,
        }
    } else {
        None
    }
}

/// An `include` statement from its keyword on, without the closing.
fn parse_include_stmt(source: &Source, pos: usize, style: Style) -> (r: Option<Pair>)
    requires
        source.wf(),
        pos <= source.chars.len(),
    ensures
        match include_stmt(source.chars@, pos as int, style) {
            Some(tree) => r matches Some(pair) && shows(pair, tree, source.chars@) && pos < tree.end,
            None => r is None,
        },
{
    proof {
        reveal_strlit("include");
    }
    if is_keyword(source, pos, "include") {
        let from = scan(source, pos + 7, gap_of(style));
        match parse_string(source, from) {
            Some(name) => {
                let end = name.span.end;
                Some(
                    wrap(
                        source,
                        Rule::include_stmt,
                        pos,
                        end,
                        name,
                        Ghost(string(source.chars@, from as int)->Some_0),
                    ),
                )
            },
            None => None,
        }
    } else {
        None
    }
}

/// A statement section.
fn parse_single_stmt(source: &Source, pos: usize) -> (r: Option<Pair>)
    requires
        source.wf(),
        pos <= source.chars.len(),
    ensures
        match single_stmt(source.chars@, pos as int) {
            Some(tree) => r matches Some(pair) && shows(pair, tree, source.chars@) && pos < tree.end,
            None => r is None,
        },
{
    match parse_opening(source, pos) {
        Some((style, first)) => {
            let stmt = match parse_set_stmt(source, first, style) {
                Some(stmt) => Some(stmt),
                None => parse_include_stmt(source, first, style),
            };
            let ghost tree = if set_stmt(source.chars@, first as int, style) is Some {
                set_stmt(source.chars@, first as int, style)
            } else {
                include_stmt(source.chars@, first as int, style)
            };
            match stmt {
                Some(stmt) => match parse_closing(source, stmt.span.end, style) {
                    Some(end) => Some(
                        wrap(source, Rule::single_stmt, pos, end, stmt, Ghost(tree->Some_0)),
                    ),
                    None => None,
                },
                None => None,
            }
        },
        None => None,
    }
}

/// Whether a directive starts at `pos`.
fn is_directive(source: &Source, pos: usize) -> (r: bool)
    requires
        pos <= source.chars.len(),
    ensures
        r == directive(source.chars@, pos as int),
{
    looking_at(source, pos, "{{") || looking_at(source, pos, "{%") || looking_at(source, pos, "##")
}

/// The position of the first directive at or after `pos`, or the end of
/// the text.
fn scan_literal(source: &Source, pos: usize) -> (r: usize)
    requires
        pos <= source.chars.len(),
    ensures
        r == literal_end(source.chars@, pos as int),
        pos <= r <= source.chars.len(),
{
    let mut i: usize = pos;
    while i < source.chars.len() && !is_directive(source, i)
        invariant
            pos <= i <= source.chars.len(),
            literal_end(source.chars@, pos as int) == literal_end(source.chars@, i as int),
        decreases source.chars.len() - i,
    {
        i += 1;
    }
    i
}

/// An expression section.
fn parse_expr_section(source: &Source, pos: usize) -> (r: Option<(Pair, usize)>)
    requires
        source.wf(),
        pos <= source.chars.len(),
    ensures
        match expr_section(source.chars@, pos as int) {
            Some((tree, end)) => r matches Some((pair, stop)) && shows(pair, tree, source.chars@) && stop
                == end && pos < end <= source.chars.len(),
            None => r is None,
        },
{
    proof {
        reveal_strlit("{{");
    }
    if looking_at(source, pos, "{{") {
        match parse_enclosed(source, pos + 2, '}') {
            Some((value, end)) => {
                if end < source.chars.len() && source.chars[end] == '}' {
                    Some((value, end + 1))
                } else {
                    None
                }
            },
            None => None,
        }
    } else {
        None
    }
}

/// A block around its one child, which covers the same text.
fn parse_block(
    source: &Source,
    rule: Rule,
    start: usize,
    end: usize,
    inner: Vec<Pair>,
    Ghost(children): Ghost<Seq<Tree>>,
) -> (r: Pair)
    requires
        source.wf(),
        start <= end <= source.chars.len(),
        show_all(inner@, children, source.chars@),
    ensures
        shows(r, block(rule, start as int, end as int, children), source.chars@),
{
    let child = branch(source, rule, start, end, inner, Ghost(children));
    wrap(
        source,
        Rule::block,
        start,
        end,
        child,
        Ghost(Tree { rule, start: start as int, end: end as int, children }),
    )
}

/// One section of a template.
fn parse_section(source: &Source, pos: usize) -> (r: Option<(Pair, usize)>)
    requires
        source.wf(),
        pos <= source.chars.len(),
    ensures
        match section(source.chars@, pos as int) {
            Some((tree, end)) => r matches Some((pair, stop)) && shows(pair, tree, source.chars@) && stop
                == end && pos < end <= source.chars.len(),
            None => r is None,
        },
    decreases source.chars.len() - pos, 2nat,
{
    match parse_if_block(source, pos) {
        Some(pair) => {
            let end = pair.span.end;
            return Some((pair, end));
        },
        None => {},
    }
    match parse_for_block(source, pos) {
        Some(pair) => {
            let end = pair.span.end;
            return Some((pair, end));
        },
        None => {},
    }
    match parse_single_stmt(source, pos) {
        Some(pair) => {
            let end = pair.span.end;
            return Some((pair, end));
        },
        None => {},
    }
    match parse_expr_section(source, pos) {
        Some(found) => {
            return Some(found);
        },
        None => {},
    }
    let end = scan_literal(source, pos);
    if end > pos {
        Some((token(source, Rule::tmpl_literal, pos, end), end))
    } else {
        None
    }
}

/// The sections from `pos` on, up to where no further section starts.
fn parse_sections(source: &Source, pos: usize) -> (r: (Vec<Pair>, usize))
    requires
        source.wf(),
        pos <= source.chars.len(),
    ensures
        r.1 == sections(source.chars@, pos as int, Seq::empty()).1,
        show_all(r.0@, sections(source.chars@, pos as int, Seq::empty()).0, source.chars@),
        pos <= r.1 <= source.chars.len(),
    decreases source.chars.len() - pos, 3nat,
{
    let mut found: Vec<Pair> = Vec::new();
    let ghost mut trees: Seq<Tree> = Seq::empty();
    let mut from: usize = pos;
    loop
        invariant
            source.wf(),
            pos <= from <= source.chars.len(),
            show_all(found@, trees, source.chars@),
            sections(source.chars@, pos as int, Seq::empty()) == sections(source.chars@, from as int, trees),
        decreases source.chars.len() - from,
    {
        match parse_section(source, from) {
            Some((pair, end)) => {
                proof {
                    let tree = section(source.chars@, from as int)->Some_0.0;
                    lemma_show_push(found@, trees, pair, tree, source.chars@);
                    trees = trees.push(tree);
                }
                found.push(pair);
                from = end;
            },
            None => {
                return (found, from);
            },
        }
    }
}

/// A body: the sections from `pos` on, as one node of kind `rule`.
fn parse_body(source: &Source, rule: Rule, pos: usize) -> (r: Pair)
    requires
        source.wf(),
        pos <= source.chars.len(),
    ensures
        shows(
            r,
            Tree {
                rule,
                start: pos as int,
                end: sections(source.chars@, pos as int, Seq::empty()).1,
                children: sections(source.chars@, pos as int, Seq::empty()).0,
            },
            source.chars@,
        ),
        pos <= sections(source.chars@, pos as int, Seq::empty()).1 <= source.chars.len(),
    decreases source.chars.len() - pos, 4nat,
{
    let (body, end) = parse_sections(source, pos);
    branch(source, rule, pos, end, body, Ghost(sections(source.chars@, pos as int, Seq::empty()).0))
}

/// A chain of branches.
fn parse_if_block(source: &Source, pos: usize) -> (r: Option<Pair>)
    requires
        source.wf(),
        pos <= source.chars.len(),
    ensures
        match if_block(source.chars@, pos as int) {
            Some(tree) => r matches Some(pair) && shows(pair, tree, source.chars@) && pos < tree.end,
            None => r is None,
        },
    decreases source.chars.len() - pos, 1nat,
{
    match parse_if_stmt(source, pos) {
        Some(head) => {
            let ghost head_tree = if_stmt(source.chars@, pos as int)->Some_0;
            let from = head.span.end;
            let body = parse_body(source, Rule::if_body, from);
            let end = body.span.end;
            let ghost body_tree = Tree {
                rule: Rule::if_body,
                start: from as int,
                end: end as int,
                children: sections(source.chars@, from as int, Seq::empty()).0,
            };
            let ghost both = seq![head_tree, body_tree];
            let mut found: Vec<Pair> = Vec::new();
            found.push(head);
            found.push(body);
            proof {
                assert(show_all(found@, both, source.chars@));
            }
            parse_branches(source, end, found, Ghost(both), pos)
        },
        None => None,
    }
}

/// The rest of a chain of branches.
fn parse_branches(
    source: &Source,
    pos: usize,
    found: Vec<Pair>,
    Ghost(trees): Ghost<Seq<Tree>>,
    start: usize,
) -> (r: Option<Pair>)
    requires
        source.wf(),
        start <= pos <= source.chars.len(),
        show_all(found@, trees, source.chars@),
    ensures
        match branches(source.chars@, pos as int, trees, start as int) {
            Some(tree) => r matches Some(pair) && shows(pair, tree, source.chars@) && pos < tree.end,
            None => r is None,
        },
    decreases source.chars.len() - pos, 5nat,
{
    match parse_else_if_stmt(source, pos) {
        Some(head) => {
            let ghost head_tree = else_if_stmt(source.chars@, pos as int)->Some_0;
            let from = head.span.end;
            let body = parse_body(source, Rule::else_if_body, from);
            let end = body.span.end;
            let ghost body_tree = Tree {
                rule: Rule::else_if_body,
                start: from as int,
                end: end as int,
                children: sections(source.chars@, from as int, Seq::empty()).0,
            };
            let mut found = found;
            proof {
                lemma_show_push(found@, trees, head, head_tree, source.chars@);
                lemma_show_push(found@.push(head), trees.push(head_tree), body, body_tree, source.chars@);
            }
            found.push(head);
            found.push(body);
            return parse_branches(
                source,
                end,
                found,
                Ghost(trees.push(head_tree).push(body_tree)),
                start,
            );
        },
        None => {},
    }
    match parse_bare(source, pos, "else") {
        Some(from) => {
            let body = parse_body(source, Rule::else_body, from);
            let end = body.span.end;
            let ghost body_tree = Tree {
                rule: Rule::else_body,
                start: from as int,
                end: end as int,
                children: sections(source.chars@, from as int, Seq::empty()).0,
            };
            match parse_bare(source, end, "endif") {
                Some(last) => {
                    let mut found = found;
                    proof {
                        lemma_show_push(found@, trees, body, body_tree, source.chars@);
                    }
                    found.push(body);
                    Some(
                        parse_block(
                            source,
                            Rule::if_block,
                            start,
                            last,
                            found,
                            Ghost(trees.push(body_tree)),
                        ),
                    )
                },
                None => None,
            }
        },
        None => match parse_bare(source, pos, "endif") {
            Some(last) => Some(parse_block(source, Rule::if_block, start, last, found, Ghost(trees))),
            None => None,
        },
    }
}

/// A loop.
fn parse_for_block(source: &Source, pos: usize) -> (r: Option<Pair>)
    requires
        source.wf(),
        pos <= source.chars.len(),
    ensures
        match for_block(source.chars@, pos as int) {
            Some(tree) => r matches Some(pair) && shows(pair, tree, source.chars@) && pos < tree.end,
            None => r is None,
        },
    decreases source.chars.len() - pos, 1nat,
{
    match parse_for_stmt(source, pos) {
        Some(head) => {
            let ghost head_tree = for_stmt(source.chars@, pos as int)->Some_0;
            let from = head.span.end;
            let body = parse_body(source, Rule::for_body, from);
            let end = body.span.end;
            let ghost body_tree = Tree {
                rule: Rule::for_body,
                start: from as int,
                end: end as int,
                children: sections(source.chars@, from as int, Seq::empty()).0,
            };
            let ghost both = seq![head_tree, body_tree];
            match parse_bare(source, end, "endfor") {
                Some(last) => {
                    let mut found: Vec<Pair> = Vec::new();
                    found.push(head);
                    found.push(body);
                    proof {
                        assert(show_all(found@, both, source.chars@));
                    }
                    Some(parse_block(source, Rule::for_block, pos, last, found, Ghost(both)))
                },
                None => None,
            }
        },
        None => None,
    }
}

/// Where a text stops being a template.
#[derive(Clone, Copy, Debug, PartialEq, Eq, Structural)]
pub struct ParseError {
    /// The position, in characters, at which no section or no expression
    /// starts.
    pub position: usize,
}

/// The characters of a text.
pub fn characters(input: &str) -> (r: Vec<char>)
    ensures
        r@ == input@,
{
    let mut chars: Vec<char> = Vec::new();
    let mut rest = input.chars();
    loop
        invariant
            chars@ + rest.remaining() == input@,
            rest.obeys_prophetic_iter_laws(),
            rest.decrease() is Some,
        decreases rest.decrease()->0,
    {
        let ghost before = rest;
        match rest.next() {
            Some(c) => {
                assert(chars@.push(c) + rest.remaining() =~= chars@ + before.remaining());
                chars.push(c);
            },
            None => {
                assert(chars@ + rest.remaining() =~= chars@);
                return chars;
            },
        }
    }
}

/// The parser of templates.
pub struct RinjaParser;

impl RinjaParser {
    /// Parses `input` as `rule`. For `Rule::tmpl_unit` the result is the
    /// sections of the template and the end-of-input mark, and the whole
    /// text must be a template; for `Rule::expr` it is the one expression
    /// that starts the text. No other rule can be asked for.
    pub fn parse(rule: Rule, input: &str) -> (r: Result<Vec<Pair>, ParseError>)
        ensures
            match parsed(rule, input@) {
                Ok(trees) => r matches Ok(pairs) && show_all(pairs@, trees, input@),
                Err(at) => r matches Err(e) && e.position == at,
            },
    {
        let source = match Source::new(characters(input)) {
            Some(source) => source,
            None => {
                return Err(ParseError { position: 0 });
            },
        };
        match rule {
            Rule::tmpl_unit => {
                let (found, end) = parse_sections(&source, 0);
                if end == source.chars.len() {
                    let ghost trees = sections(input@, 0, Seq::empty()).0;
                    let mark = token(&source, Rule::EOI, end, end);
                    let mut found = found;
                    proof {
                        lemma_show_push(
                            found@,
                            trees,
                            mark,
                            leaf(Rule::EOI, end as int, end as int),
                            input@,
                        );
                    }
                    found.push(mark);
                    Ok(found)
                } else {
                    Err(ParseError { position: end })
                }
            },
            Rule::expr => match parse_expr(&source, 0) {
                Some(pair) => {
                    let mut found: Vec<Pair> = Vec::new();
                    found.push(pair);
                    Ok(found)
                },
                None => Err(ParseError { position: 0 }),
            },
            _ => Err(ParseError { position: 0 }),
        }
    }
}

/// What parsing `s` as `rule` gives: the trees of the nodes, or the
/// position at which the text is not what the rule asks for. A text of
/// `usize::MAX` characters or more is not parsed.
pub open spec fn parsed(rule: Rule, s: Seq<char>) -> Result<Seq<Tree>, int> {
    if s.len() >= usize::MAX {
        Err(0)
    } else {
        match rule {
            Rule::tmpl_unit => tmpl_unit(s),
            Rule::expr => match expr(s, 0) {
                Some(tree) => Ok(seq![tree]),
                None => Err(0),
            },
            _ => Err(0),
        }
    }
}

} // verus!
