//! The grammar of templates, as mathematical functions from a text and a
//! position to the syntax tree that starts there.
//!
//! A template is literal text with three kinds of directive in it:
//! `{{ expression }}`, `{% statement %}` and the line statement
//! `## statement`, which runs to the end of its line.

use crate::climb::{alternates, spec_binding};
use crate::syntax::Rule;
use vstd::prelude::*;

verus! {

/// A syntax tree: a kind, the range of the text it covers and its children.
pub struct Tree {
    pub rule: Rule,
    pub start: int,
    pub end: int,
    pub children: Seq<Tree>,
}

/// A tree without children.
pub open spec fn leaf(rule: Rule, start: int, end: int) -> Tree {
    Tree { rule, start, end, children: Seq::empty() }
}

/// Whether `text` stands at `pos` in `s`.
pub open spec fn at(s: Seq<char>, pos: int, text: Seq<char>) -> bool {
    pos + text.len() <= s.len() && s.subrange(pos, pos + text.len()) == text
}

pub open spec fn is_digit(c: char) -> bool {
    '0' <= c && c <= '9'
}

pub open spec fn is_letter(c: char) -> bool {
    ('a' <= c && c <= 'z') || ('A' <= c && c <= 'Z') || c == '_'
}

pub open spec fn is_word(c: char) -> bool {
    is_letter(c) || is_digit(c)
}

/// A blank within a line.
pub open spec fn is_blank(c: char) -> bool {
    c == ' ' || c == '\t'
}

pub open spec fn is_space(c: char) -> bool {
    is_blank(c) || c == '\n' || c == '\r'
}

/// The classes of characters that a run can be made of.
#[derive(Clone, Copy, Debug, PartialEq, Eq, Structural)]
pub enum Class {
    Digit,
    Word,
    Blank,
    Space,
}

pub open spec fn in_class(class: Class, c: char) -> bool {
    match class {
        Class::Digit => is_digit(c),
        Class::Word => is_word(c),
        Class::Blank => is_blank(c),
        Class::Space => is_space(c),
    }
}

/// The end of the longest run of characters of `class` that starts at
/// `pos`.
pub open spec fn run(s: Seq<char>, pos: int, class: Class) -> int
    decreases s.len() - pos,
{
    if pos < s.len() && in_class(class, s[pos]) {
        run(s, pos + 1, class)
    } else {
        pos
    }
}

/// Whether the word `text` stands at `pos` and ends there.
pub open spec fn keyword(s: Seq<char>, pos: int, text: Seq<char>) -> bool {
    at(s, pos, text) && !(pos + text.len() < s.len() && is_word(s[pos + text.len()]))
}

/// An identifier: a letter or `_`, then letters, digits and `_`.
pub open spec fn ident(s: Seq<char>, pos: int) -> Option<Tree> {
    if pos < s.len() && is_letter(s[pos]) {
        Some(leaf(Rule::ident, pos, run(s, pos + 1, Class::Word)))
    } else {
        None
    }
}

/// An unsigned integer: one digit or more.
pub open spec fn uint(s: Seq<char>, pos: int) -> Option<Tree> {
    if pos < s.len() && is_digit(s[pos]) {
        Some(leaf(Rule::uint, pos, run(s, pos + 1, Class::Digit)))
    } else {
        None
    }
}

/// The end of the fraction of a number, which may be missing: a point and
/// one digit or more.
pub open spec fn fraction(s: Seq<char>, pos: int) -> int {
    if pos + 1 < s.len() && s[pos] == '.' && is_digit(s[pos + 1]) {
        run(s, pos + 2, Class::Digit)
    } else {
        pos
    }
}

/// The end of the exponent of a number, which may be missing: `e` or `E`,
/// a sign or none, and one digit or more.
pub open spec fn exponent(s: Seq<char>, pos: int) -> int {
    if pos + 1 < s.len() && (s[pos] == 'e' || s[pos] == 'E') {
        let digits: int = if s[pos + 1] == '+' || s[pos + 1] == '-' {
            pos + 2
        } else {
            pos + 1
        };
        if digits < s.len() && is_digit(s[digits]) {
            run(s, digits + 1, Class::Digit)
        } else {
            pos
        }
    } else {
        pos
    }
}

/// A number as JSON writes it, without a sign: `0` or digits that do not
/// start with `0`, then a fraction and an exponent, each of which may be
/// missing.
pub open spec fn num(s: Seq<char>, pos: int) -> Option<Tree> {
    if pos < s.len() && is_digit(s[pos]) {
        let whole: int = if s[pos] == '0' {
            pos + 1
        } else {
            run(s, pos + 1, Class::Digit)
        };
        Some(leaf(Rule::num, pos, exponent(s, fraction(s, whole))))
    } else {
        None
    }
}

/// The position of the first `"` at or after `pos`, or the end of the
/// text.
pub open spec fn quote(s: Seq<char>, pos: int) -> int
    decreases s.len() - pos,
{
    if pos < s.len() && s[pos] != '"' {
        quote(s, pos + 1)
    } else {
        pos
    }
}

/// A string: what stands between two `"`. Its one child is the content.
pub open spec fn string(s: Seq<char>, pos: int) -> Option<Tree> {
    if pos < s.len() && s[pos] == '"' && quote(s, pos + 1) < s.len() {
        let close = quote(s, pos + 1);
        Some(
            Tree {
                rule: Rule::str,
                start: pos,
                end: close + 1,
                children: seq![leaf(Rule::str_inner, pos + 1, close)],
            },
        )
    } else {
        None
    }
}

/// The comparison operator that stands at `pos`, with its end.
pub open spec fn relation(s: Seq<char>, pos: int) -> Option<(Rule, int)> {
    if at(s, pos, "<="@) {
        Some((Rule::ngt, pos + 2))
    } else if at(s, pos, ">="@) {
        Some((Rule::nlt, pos + 2))
    } else if at(s, pos, "!="@) {
        Some((Rule::ne, pos + 2))
    } else if at(s, pos, "=="@) {
        Some((Rule::eq, pos + 2))
    } else if at(s, pos, "<"@) {
        Some((Rule::lt, pos + 1))
    } else if at(s, pos, ">"@) {
        Some((Rule::gt, pos + 1))
    } else {
        None
    }
}

/// The binary operator that stands at `pos`. A comparison has the kind of
/// comparison as its one child.
pub open spec fn operator(s: Seq<char>, pos: int) -> Option<Tree> {
    match relation(s, pos) {
        Some((rule, end)) => Some(
            Tree { rule: Rule::comparison, start: pos, end, children: seq![leaf(rule, pos, end)] },
        ),
        None => if pos < s.len() {
            let c = s[pos];
            if c == '+' {
                Some(leaf(Rule::add, pos, pos + 1))
            } else if c == '-' {
                Some(leaf(Rule::subtract, pos, pos + 1))
            } else if c == '*' {
                Some(leaf(Rule::multiply, pos, pos + 1))
            } else if c == '/' {
                Some(leaf(Rule::divide, pos, pos + 1))
            } else if c == '^' {
                Some(leaf(Rule::power, pos, pos + 1))
            } else {
                None
            }
        } else {
            None
        },
    }
}

/// An expression: operands with binary operators between them, and blanks
/// and line breaks where one likes.
pub open spec fn expr(s: Seq<char>, pos: int) -> Option<Tree>
    decreases s.len() - pos, 5nat,
{
    match operand(s, pos) {
        Some(first) => if pos < first.end <= s.len() {
            let (children, end) = expr_tail(s, first.end, seq![first]);
            Some(Tree { rule: Rule::expr, start: pos, end, children })
        } else {
            None
        },
        None => None,
    }
}

/// The operators and operands that follow the operand that ends at `pos`,
/// appended to `children`, with the position behind the last of them.
pub open spec fn expr_tail(s: Seq<char>, pos: int, children: Seq<Tree>) -> (Seq<Tree>, int)
    decreases s.len() - pos, 6nat,
{
    match operator(s, run(s, pos, Class::Space)) {
        Some(op) => {
            let next = run(s, op.end, Class::Space);
            if pos < next <= s.len() {
                match operand(s, next) {
                    Some(right) => if next < right.end <= s.len() {
                        expr_tail(s, right.end, children.push(op).push(right))
                    } else {
                        (children, pos)
                    },
                    None => (children, pos),
                }
            } else {
                (children, pos)
            }
        },
        None => (children, pos),
    }
}

/// An operand: a number, a string, a call, a subscript chain, an
/// identifier or an expression in parentheses. The last is an expression
/// node over the parentheses, with the expression between them as its one
/// child.
pub open spec fn operand(s: Seq<char>, pos: int) -> Option<Tree>
    decreases s.len() - pos, 4nat,
{
    if num(s, pos) is Some {
        num(s, pos)
    } else if string(s, pos) is Some {
        string(s, pos)
    } else if call(s, pos) is Some {
        call(s, pos)
    } else if subs(s, pos) is Some {
        subs(s, pos)
    } else if ident(s, pos) is Some {
        ident(s, pos)
    } else if pos < s.len() && s[pos] == '(' {
        match enclosed(s, pos + 1, ')') {
            Some((inner, end)) => Some(
                Tree { rule: Rule::expr, start: pos, end, children: seq![inner] },
            ),
            None => None,
        }
    } else {
        None
    }
}

/// An expression with blanks around it and `close` behind it: the
/// expression, and the position behind `close`.
pub open spec fn enclosed(s: Seq<char>, pos: int, close: char) -> Option<(Tree, int)>
    decreases s.len() - pos, 7nat,
{
    let start = run(s, pos, Class::Space);
    if pos <= start <= s.len() {
        match expr(s, start) {
            Some(inner) => {
                let end = run(s, inner.end, Class::Space);
                if end < s.len() && s[end] == close {
                    Some((inner, end + 1))
                } else {
                    None
                }
            },
            None => None,
        }
    } else {
        None
    }
}

/// A subscript chain: an identifier and one accessor or more.
pub open spec fn subs(s: Seq<char>, pos: int) -> Option<Tree>
    decreases s.len() - pos, 3nat,
{
    match ident(s, pos) {
        Some(name) => if pos < name.end <= s.len() {
            let (children, end) = accessors(s, name.end, seq![name]);
            if children.len() > 1 {
                Some(Tree { rule: Rule::subs, start: pos, end, children })
            } else {
                None
            }
        } else {
            None
        },
        None => None,
    }
}

/// One accessor: `.name`, `[index]` or `[expression]`. The key, and the
/// position behind the accessor.
pub open spec fn accessor(s: Seq<char>, pos: int) -> Option<(Tree, int)>
    decreases s.len() - pos, 8nat,
{
    if pos < s.len() && s[pos] == '.' {
        match ident(s, pos + 1) {
            Some(name) => Some((name, name.end)),
            None => None,
        }
    } else if pos < s.len() && s[pos] == '[' {
        let start = run(s, pos + 1, Class::Space);
        match uint(s, start) {
            Some(index) => {
                let end = run(s, index.end, Class::Space);
                if end < s.len() && s[end] == ']' {
                    Some((index, end + 1))
                } else {
                    enclosed(s, pos + 1, ']')
                }
            },
            None => enclosed(s, pos + 1, ']'),
        }
    } else {
        None
    }
}

/// The accessors from `pos` on, their keys appended to `children`.
pub open spec fn accessors(s: Seq<char>, pos: int, children: Seq<Tree>) -> (Seq<Tree>, int)
    decreases s.len() - pos, 9nat,
{
    match accessor(s, pos) {
        Some((key, end)) => if pos < end <= s.len() {
            accessors(s, end, children.push(key))
        } else {
            (children, pos)
        },
        None => (children, pos),
    }
}

/// A call: a name, and arguments in parentheses with commas between them.
pub open spec fn call(s: Seq<char>, pos: int) -> Option<Tree>
    decreases s.len() - pos, 3nat,
{
    match ident(s, pos) {
        Some(name) => if pos < name.end < s.len() && s[name.end] == '(' {
            let start = run(s, name.end + 1, Class::Space);
            if start < s.len() && s[start] == ')' {
                Some(Tree { rule: Rule::call, start: pos, end: start + 1, children: seq![name] })
            } else {
                match arguments(s, name.end + 1, seq![name]) {
                    Some((children, end)) => Some(
                        Tree { rule: Rule::call, start: pos, end, children },
                    ),
                    None => None,
                }
            }
        } else {
            None
        },
        None => None,
    }
}

/// The arguments of a call from `pos` on, appended to `children`, up to
/// and with the closing parenthesis.
pub open spec fn arguments(s: Seq<char>, pos: int, children: Seq<Tree>) -> Option<(Seq<Tree>, int)>
    decreases s.len() - pos, 9nat,
{
    let start = run(s, pos, Class::Space);
    if pos <= start <= s.len() {
        match expr(s, start) {
            Some(argument) => {
                let end = run(s, argument.end, Class::Space);
                if end < s.len() && s[end] == ')' {
                    Some((children.push(argument), end + 1))
                } else if end < s.len() && s[end] == ',' && pos < end + 1 {
                    arguments(s, end + 1, children.push(argument))
                } else {
                    None
                }
            },
            None => None,
        }
    } else {
        None
    }
}

/// The two ways to write a statement: between `{%` and `%}`, or on a line
/// of its own behind `##`.
#[derive(Clone, Copy, Debug, PartialEq, Eq, Structural)]
pub enum Style {
    Tag,
    Line,
}

/// The blanks that may stand inside a statement: a tag may run over
/// lines, a line statement may not.
pub open spec fn gap(style: Style) -> Class {
    match style {
        Style::Tag => Class::Space,
        Style::Line => Class::Blank,
    }
}

/// The opening of a statement at `pos`: its style, and the position of
/// its first word.
pub open spec fn opening(s: Seq<char>, pos: int) -> Option<(Style, int)> {
    if at(s, pos, "{%"@) {
        Some((Style::Tag, run(s, pos + 2, Class::Space)))
    } else if at(s, pos, "##"@) {
        Some((Style::Line, run(s, pos + 2, Class::Blank)))
    } else {
        None
    }
}

/// The closing of a statement whose last part ends at `pos`: `%}` for a
/// tag; for a line statement the end of the line, which belongs to the
/// statement, or the end of the text. The position behind it.
pub open spec fn closing(s: Seq<char>, pos: int, style: Style) -> Option<int> {
    let end = run(s, pos, gap(style));
    match style {
        Style::Tag => if at(s, end, "%}"@) {
            Some(end + 2)
        } else {
            None
        },
        Style::Line => if end >= s.len() {
            Some(end)
        } else if s[end] == '\n' {
            Some(end + 1)
        } else if at(s, end, "\r\n"@) {
            Some(end + 2)
        } else {
            None
        },
    }
}

/// A statement that is one word: `else`, `endif` or `endfor`. The
/// position behind it.
pub open spec fn bare(s: Seq<char>, pos: int, word: Seq<char>) -> Option<int> {
    match opening(s, pos) {
        Some((style, first)) => if keyword(s, first, word) {
            closing(s, first + word.len(), style)
        } else {
            None
        },
        None => None,
    }
}

/// The part of a statement behind its keyword, which ends at `pos`: an
/// expression, then the closing. The expression and the position behind
/// the statement.
pub open spec fn condition(s: Seq<char>, pos: int, style: Style) -> Option<(Tree, int)> {
    match expr(s, run(s, pos, gap(style))) {
        Some(test) => match closing(s, test.end, style) {
            Some(end) => Some((test, end)),
            None => None,
        },
        None => None,
    }
}

/// An `if` statement.
pub open spec fn if_stmt(s: Seq<char>, pos: int) -> Option<Tree> {
    match opening(s, pos) {
        Some((style, first)) => if keyword(s, first, "if"@) {
            match condition(s, first + 2, style) {
                Some((test, end)) => Some(
                    Tree { rule: Rule::if_stmt, start: pos, end, children: seq![test] },
                ),
                None => None,
            }
        } else {
            None
        },
        None => None,
    }
}

/// An `else if` statement.
pub open spec fn else_if_stmt(s: Seq<char>, pos: int) -> Option<Tree> {
    match opening(s, pos) {
        Some((style, first)) => if keyword(s, first, "else"@) {
            let second = run(s, first + 4, gap(style));
            if keyword(s, second, "if"@) {
                match condition(s, second + 2, style) {
                    Some((test, end)) => Some(
                        Tree { rule: Rule::else_if_stmt, start: pos, end, children: seq![test] },
                    ),
                    None => None,
                }
            } else {
                None
            }
        } else {
            None
        },
        None => None,
    }
}

/// The names of a `for` statement from `pos` on: one, or two with a comma
/// between them. The names and the position behind them.
pub open spec fn loop_variables(s: Seq<char>, pos: int, style: Style) -> Option<(Seq<Tree>, int)> {
    match ident(s, pos) {
        Some(first) => {
            let comma = run(s, first.end, gap(style));
            if comma < s.len() && s[comma] == ',' {
                match ident(s, run(s, comma + 1, gap(style))) {
                    Some(second) => Some((seq![first, second], second.end)),
                    None => None,
                }
            } else {
                Some((seq![first], first.end))
            }
        },
        None => None,
    }
}

/// A `for` statement: `for`, the names, `in` and the expression to run
/// over.
pub open spec fn for_stmt(s: Seq<char>, pos: int) -> Option<Tree> {
    match opening(s, pos) {
        Some((style, first)) => if keyword(s, first, "for"@) {
            match loop_variables(s, run(s, first + 3, gap(style)), style) {
                Some((names, end)) => {
                    let word = run(s, end, gap(style));
                    if keyword(s, word, "in"@) {
                        match condition(s, word + 2, style) {
                            Some((target, end)) => Some(
                                Tree {
                                    rule: Rule::for_stmt,
                                    start: pos,
                                    end,
                                    children: names.push(target),
                                },
                            ),
                            None => None,
                        }
                    } else {
                        None
                    }
                },
                None => None,
            }
        } else {
            None
        },
        None => None,
    }
}

/// The target of an assignment: a subscript chain or an identifier.
pub open spec fn lvalue(s: Seq<char>, pos: int) -> Option<Tree> {
    match subs(s, pos) {
        Some(chain) => Some(
            Tree { rule: Rule::lvalue, start: pos, end: chain.end, children: seq![chain] },
        ),
        None => match ident(s, pos) {
            Some(name) => Some(
                Tree { rule: Rule::lvalue, start: pos, end: name.end, children: seq![name] },
            ),
            None => None,
        },
    }
}

/// A `set` statement from its keyword at `pos` on, without the closing:
/// `set`, a target, `=` and an expression.
pub open spec fn set_stmt(s: Seq<char>, pos: int, style: Style) -> Option<Tree> {
    if keyword(s, pos, "set"@) {
        match lvalue(s, run(s, pos + 3, gap(style))) {
            Some(target) => {
                let equals = run(s, target.end, gap(style));
                if equals < s.len() && s[equals] == '=' {
                    match expr(s, run(s, equals + 1, gap(style))) {
                        Some(value) => Some(
                            Tree {
                                rule: Rule::set_stmt,
                                start: pos,
                                end: value.end,
                                children: seq![target, value],
                            },
                        ),
                        None => None,
                    }
                } else {
                    None
                }
            },
            None => None,
        }
    } else {
        None
    }
}

/// An `include` statement from its keyword at `pos` on, without the
/// closing: `include` and a string.
pub open spec fn include_stmt(s: Seq<char>, pos: int, style: Style) -> Option<Tree> {
    if keyword(s, pos, "include"@) {
        match string(s, run(s, pos + 7, gap(style))) {
            Some(name) => Some(
                Tree { rule: Rule::include_stmt, start: pos, end: name.end, children: seq![name] },
            ),
            None => None,
        }
    } else {
        None
    }
}

/// A statement section: the opening, a `set` or an `include` statement,
/// and the closing.
pub open spec fn single_stmt(s: Seq<char>, pos: int) -> Option<Tree> {
    match opening(s, pos) {
        Some((style, first)) => {
            let stmt = if set_stmt(s, first, style) is Some {
                set_stmt(s, first, style)
            } else {
                include_stmt(s, first, style)
            };
            match stmt {
                Some(stmt) => match closing(s, stmt.end, style) {
                    Some(end) => Some(
                        Tree { rule: Rule::single_stmt, start: pos, end, children: seq![stmt] },
                    ),
                    None => None,
                },
                None => None,
            }
        },
        None => None,
    }
}

/// Whether a directive starts at `pos`.
pub open spec fn directive(s: Seq<char>, pos: int) -> bool {
    at(s, pos, "{{"@) || at(s, pos, "{%"@) || at(s, pos, "##"@)
}

/// The position of the first directive at or after `pos`, or the end of
/// the text.
pub open spec fn literal_end(s: Seq<char>, pos: int) -> int
    decreases s.len() - pos,
{
    if 0 <= pos < s.len() && !directive(s, pos) {
        literal_end(s, pos + 1)
    } else {
        pos
    }
}

/// An expression section: `{{`, an expression and `}}`. The expression,
/// and the position behind the section.
pub open spec fn expr_section(s: Seq<char>, pos: int) -> Option<(Tree, int)> {
    if at(s, pos, "{{"@) {
        match enclosed(s, pos + 2, '}') {
            Some((value, end)) => if end < s.len() && s[end] == '}' {
                Some((value, end + 1))
            } else {
                None
            },
            None => None,
        }
    } else {
        None
    }
}

/// A block around its one child, which covers the same text.
pub open spec fn block(rule: Rule, start: int, end: int, children: Seq<Tree>) -> Tree {
    Tree {
        rule: Rule::block,
        start,
        end,
        children: seq![Tree { rule, start, end, children }],
    }
}

/// One section of a template: a block, a statement, an expression or
/// literal text up to the next directive. The section, and the position
/// behind it.
pub open spec fn section(s: Seq<char>, pos: int) -> Option<(Tree, int)>
    decreases s.len() - pos, 2nat,
{
    if if_block(s, pos) is Some {
        Some((if_block(s, pos)->Some_0, if_block(s, pos)->Some_0.end))
    } else if for_block(s, pos) is Some {
        Some((for_block(s, pos)->Some_0, for_block(s, pos)->Some_0.end))
    } else if single_stmt(s, pos) is Some {
        Some((single_stmt(s, pos)->Some_0, single_stmt(s, pos)->Some_0.end))
    } else if expr_section(s, pos) is Some {
        expr_section(s, pos)
    } else if literal_end(s, pos) > pos {
        Some((leaf(Rule::tmpl_literal, pos, literal_end(s, pos)), literal_end(s, pos)))
    } else {
        None
    }
}

/// The sections from `pos` on, appended to `found`, with the position at
/// which no further section starts.
pub open spec fn sections(s: Seq<char>, pos: int, found: Seq<Tree>) -> (Seq<Tree>, int)
    decreases s.len() - pos, 3nat,
{
    match section(s, pos) {
        Some((tree, end)) => if pos < end <= s.len() {
            sections(s, end, found.push(tree))
        } else {
            (found, pos)
        },
        None => (found, pos),
    }
}

/// A chain of branches: an `if` statement and its body, any number of
/// `else if` statements with theirs, an `else` with its body or none, and
/// `endif`.
pub open spec fn if_block(s: Seq<char>, pos: int) -> Option<Tree>
    decreases s.len() - pos, 1nat,
{
    match if_stmt(s, pos) {
        Some(head) => if pos < head.end <= s.len() {
            let (body, end) = sections(s, head.end, Seq::empty());
            if head.end <= end <= s.len() {
                branches(
                    s,
                    end,
                    seq![head, Tree { rule: Rule::if_body, start: head.end, end, children: body }],
                    pos,
                )
            } else {
                None
            }
        } else {
            None
        },
        None => None,
    }
}

/// The rest of a chain that starts at `start`, from `pos` on, where a body
/// has just ended; `found` holds the statements and bodies before it.
pub open spec fn branches(s: Seq<char>, pos: int, found: Seq<Tree>, start: int) -> Option<Tree>
    decreases s.len() - pos, 4nat,
{
    match else_if_stmt(s, pos) {
        Some(head) => if pos < head.end <= s.len() {
            let (body, end) = sections(s, head.end, Seq::empty());
            if head.end <= end <= s.len() {
                branches(
                    s,
                    end,
                    found.push(head).push(
                        Tree { rule: Rule::else_if_body, start: head.end, end, children: body },
                    ),
                    start,
                )
            } else {
                None
            }
        } else {
            None
        },
        None => match bare(s, pos, "else"@) {
            Some(from) => if pos < from <= s.len() {
                let (body, end) = sections(s, from, Seq::empty());
                match bare(s, end, "endif"@) {
                    Some(last) => Some(
                        block(
                            Rule::if_block,
                            start,
                            last,
                            found.push(
                                Tree { rule: Rule::else_body, start: from, end, children: body },
                            ),
                        ),
                    ),
                    None => None,
                }
            } else {
                None
            },
            None => match bare(s, pos, "endif"@) {
                Some(last) => Some(block(Rule::if_block, start, last, found)),
                None => None,
            },
        },
    }
}

/// A loop: a `for` statement, its body and `endfor`.
pub open spec fn for_block(s: Seq<char>, pos: int) -> Option<Tree>
    decreases s.len() - pos, 1nat,
{
    match for_stmt(s, pos) {
        Some(head) => if pos < head.end <= s.len() {
            let (body, end) = sections(s, head.end, Seq::empty());
            match bare(s, end, "endfor"@) {
                Some(last) => Some(
                    block(
                        Rule::for_block,
                        pos,
                        last,
                        seq![
                            head,
                            Tree { rule: Rule::for_body, start: head.end, end, children: body },
                        ],
                    ),
                ),
                None => None,
            }
        } else {
            None
        },
        None => None,
    }
}

/// A whole template: its sections, which must cover the text, and the
/// end-of-input mark behind them. `Err` holds the position at which no
/// section starts.
pub open spec fn tmpl_unit(s: Seq<char>) -> Result<Seq<Tree>, int> {
    let (found, end) = sections(s, 0, Seq::empty());
    if end == s.len() {
        Ok(found.push(leaf(Rule::EOI, end, end)))
    } else {
        Err(end)
    }
}

/// In a text without a directive, literal text runs to the end.
pub proof fn lemma_literal_runs_on(s: Seq<char>, pos: int)
    requires
        0 <= pos <= s.len(),
        forall|i: int| 0 <= i < s.len() ==> !directive(s, i),
    ensures
        literal_end(s, pos) == s.len(),
    decreases s.len() - pos,
{
    if pos < s.len() {
        lemma_literal_runs_on(s, pos + 1);
    }
}

/// A text without a directive is a template of one literal section, which
/// is the text; the empty text is a template of no section.
pub proof fn law_literal_template(s: Seq<char>)
    requires
        forall|i: int| 0 <= i < s.len() ==> !directive(s, i),
    ensures
        tmpl_unit(s) == Ok::<Seq<Tree>, int>(
            if s.len() == 0 {
                seq![leaf(Rule::EOI, 0, 0)]
            } else {
                seq![
                    leaf(Rule::tmpl_literal, 0, s.len() as int),
                    leaf(Rule::EOI, s.len() as int, s.len() as int),
                ]
            },
        ),
{
    reveal_strlit("{{");
    reveal_strlit("{%");
    reveal_strlit("##");
    let end = s.len() as int;
    lemma_literal_runs_on(s, 0);
    lemma_literal_runs_on(s, end);
    assert(!directive(s, end));
    assert(section(s, end) is None);
    if s.len() > 0 {
        assert(!directive(s, 0));
        let literal = leaf(Rule::tmpl_literal, 0, end);
        assert(section(s, 0) == Some((literal, end)));
        assert(sections(s, end, seq![literal]) == (seq![literal], end));
        assert(Seq::<Tree>::empty().push(literal) =~= seq![literal]);
        assert(seq![literal].push(leaf(Rule::EOI, end, end)) =~= seq![
            literal,
            leaf(Rule::EOI, end, end),
        ]);
    } else {
        assert(Seq::<Tree>::empty().push(leaf(Rule::EOI, 0, 0)) =~= seq![leaf(Rule::EOI, 0, 0)]);
    }
}

/// The kinds of the trees of a sequence.
pub open spec fn kinds(trees: Seq<Tree>) -> Seq<Rule> {
    trees.map_values(|t: Tree| t.rule)
}

/// What follows an operand in the text is an operator and an operand, as
/// often as it goes: the children of an expression stay a run of operands
/// with operators of the table between them.
pub proof fn lemma_expr_tail_alternates(s: Seq<char>, pos: int, children: Seq<Tree>)
    requires
        alternates(kinds(children)),
    ensures
        alternates(kinds(expr_tail(s, pos, children).0)),
    decreases s.len() - pos,
{
    let start = run(s, pos, Class::Space);
    match operator(s, start) {
        Some(op) => {
            let next = run(s, op.end, Class::Space);
            if pos < next <= s.len() {
                match operand(s, next) {
                    Some(right) => {
                        if next < right.end <= s.len() {
                            let grown = children.push(op).push(right);
                            assert(spec_binding(op.rule) is Some);
                            assert forall|i: int|
                                0 <= i < kinds(grown).len() && i % 2 == 1 implies spec_binding(
                                #[trigger] kinds(grown)[i],
                            ) is Some by {
                                if i < children.len() {
                                    assert(kinds(grown)[i] == kinds(children)[i]);
                                } else {
                                    assert(kinds(grown)[i] == op.rule);
                                }
                            }
                            lemma_expr_tail_alternates(s, right.end, grown);
                        }
                    },
                    None => {},
                }
            }
        },
        None => {},
    }
}

/// The children of an expression that the grammar finds in a text are
/// operands with operators of the table between them, so precedence
/// climbing has a tree for them.
pub proof fn law_parsed_expression_alternates(s: Seq<char>, pos: int)
    requires
        expr(s, pos) is Some,
    ensures
        alternates(kinds(expr(s, pos)->Some_0.children)),
{
    let first = operand(s, pos)->Some_0;
    assert(kinds(seq![first]).len() == 1);
    lemma_expr_tail_alternates(s, first.end, seq![first]);
}

} // verus!
