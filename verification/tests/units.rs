use rinja::climb::{binding, grow, Assoc, Binding, Term};
use rinja::error::{Cause, ErrorKind, RendererError};
use rinja::interpreter::{
    arithmetic_for, entry, entry_count, make_frame, names_of, relation_for,
    Interpreter, Visitor,
};
use rinja::kernel::{decide, order_integers, Arithmetic, Order, Relation};
use rinja::parser::{characters, RinjaParser};
use rinja::path::Segment;
use rinja::semantics::Builtin;
use rinja::syntax::{span_of, Pair, Rule, Span};
use rinja::text::{order_texts, parse_uint, push_decimal, push_digits};
use rinja::value::{Member, Number, Value};

fn whole(i: i128) -> Value {
    Value::Number(Number::Integer(i))
}

fn text(s: &str) -> Value {
    Value::String(s.to_string())
}

fn entry_of(key: &str, value: Value) -> Member {
    Member { key: key.to_string(), value }
}

fn sample() -> Value {
    Value::Object(vec![
        entry_of("a", whole(43)),
        entry_of("b", Value::Array(vec![whole(0), whole(1), whole(2)])),
        entry_of("c", Value::Object(vec![entry_of("a", whole(0))])),
    ])
}

fn key(k: &str) -> Segment {
    Segment::Key(k.to_string())
}

fn leaf(rule: Rule, s: &str) -> Pair {
    Pair::new(rule, s.to_string(), Span { start: 0, end: s.chars().count(), line: 1, column: 1 }, vec![])
}

fn never(_: Arithmetic, _: Number, _: Number) -> Option<Number> {
    None
}

fn equal(_: Number, _: Number) -> Order {
    Order::Equal
}

fn stars(_: u64) -> String {
    "*".to_string()
}

fn none(_: u32, _: Vec<Value>) -> Result<Value, Cause> {
    Err(Cause::UnknownFunction)
}

#[test]
fn get_finds_the_first_entry() {
    let v = sample();
    assert_eq!(v.get("a"), Some(&whole(43)));
    assert_eq!(v.get("z"), None);
    assert_eq!(v.get(""), None);
    assert_eq!(whole(1).get("a"), None);
    let twice = Value::Object(vec![entry_of("k", whole(1)), entry_of("k", whole(2))]);
    assert_eq!(twice.get("k"), Some(&whole(1)));
}

#[test]
fn at_indexes_sequences_only() {
    let v = Value::Array(vec![whole(5), whole(6)]);
    assert_eq!(v.at(0), Some(&whole(5)));
    assert_eq!(v.at(1), Some(&whole(6)));
    assert_eq!(v.at(2), None);
    assert_eq!(sample().at(0), None);
    assert_eq!(text("ab").at(0), None);
}

#[test]
fn walk_follows_a_path() {
    let v = sample();
    assert_eq!(v.walk(&vec![key("b"), Segment::Index(2)], 0), Ok(&whole(2)));
    assert_eq!(v.walk(&vec![key("c"), key("a")], 0), Ok(&whole(0)));
    assert_eq!(v.walk(&vec![], 0), Ok(&v));
    assert_eq!(v.walk(&vec![key("b"), Segment::Index(3)], 0), Err(1));
    assert_eq!(v.walk(&vec![key("z"), Segment::Index(3)], 0), Err(0));
    assert_eq!(v.walk(&vec![key("a"), key("x"), key("y")], 0), Err(1));
    // from a later step on
    let b = v.get("b").unwrap();
    assert_eq!(b.walk(&vec![key("ignored"), Segment::Index(1)], 1), Ok(&whole(1)));
}

#[test]
fn store_replaces_one_slot() {
    let mut v = sample();
    assert_eq!(v.store(&vec![key("b"), Segment::Index(0)], 0, text("new")), Ok(()));
    assert_eq!(
        v,
        Value::Object(vec![
            entry_of("a", whole(43)),
            entry_of("b", Value::Array(vec![text("new"), whole(1), whole(2)])),
            entry_of("c", Value::Object(vec![entry_of("a", whole(0))])),
        ])
    );
    assert_eq!(v.store(&vec![key("c"), key("a")], 0, Value::Null), Ok(()));
    assert_eq!(v.get("c").unwrap().get("a"), Some(&Value::Null));
    assert_eq!(v.get("a"), Some(&whole(43)));
}

#[test]
fn store_fails_where_walk_fails() {
    let mut v = sample();
    for path in [
        vec![key("z")],
        vec![key("b"), Segment::Index(3)],
        vec![key("b"), key("x")],
        vec![key("a"), Segment::Index(0)],
        vec![key("c"), key("a"), key("deeper")],
    ] {
        let read = v.walk(&path, 0).map(|_| ()).map_err(|at| at);
        assert!(read.is_err());
        assert_eq!(v.store(&path, 0, whole(9)), read);
        assert_eq!(v, sample());
    }
}

#[test]
fn clone_is_deep() {
    let v = sample();
    let mut w = v.clone();
    assert_eq!(v, w);
    w.store(&vec![key("b"), Segment::Index(1)], 0, whole(7)).unwrap();
    assert_eq!(v, sample());
    assert_eq!(w.get("b").unwrap().at(1), Some(&whole(7)));
}

#[test]
fn integers_in_decimal() {
    let mut s = String::from("x");
    push_decimal(&mut s, 0);
    push_decimal(&mut s, -1);
    push_decimal(&mut s, 10);
    push_decimal(&mut s, 907);
    assert_eq!(s, "x0-110907");
    let mut s = String::new();
    push_decimal(&mut s, i128::MIN);
    assert_eq!(s, "-170141183460469231731687303715884105728");
    let mut s = String::new();
    push_decimal(&mut s, i128::MAX);
    assert_eq!(s, "170141183460469231731687303715884105727");
    let mut s = String::new();
    push_digits(&mut s, u128::MAX);
    assert_eq!(s, "340282366920938463463374607431768211455");
}

#[test]
fn indices_from_digits() {
    assert_eq!(parse_uint("0"), Some(0));
    assert_eq!(parse_uint("007"), Some(7));
    assert_eq!(parse_uint("1234"), Some(1234));
    assert_eq!(parse_uint(""), None);
    assert_eq!(parse_uint("12a"), None);
    assert_eq!(parse_uint("-1"), None);
    assert_eq!(parse_uint("+1"), None);
    assert_eq!(parse_uint(&usize::MAX.to_string()), Some(usize::MAX));
    assert_eq!(parse_uint("18446744073709551616"), None);
    assert_eq!(parse_uint("99999999999999999999999999"), None);
}

#[test]
fn texts_in_order() {
    assert_eq!(order_texts("", ""), Order::Equal);
    assert_eq!(order_texts("a", "a"), Order::Equal);
    assert_eq!(order_texts("a", "b"), Order::Less);
    assert_eq!(order_texts("b", "a"), Order::Greater);
    assert_eq!(order_texts("ab", "abc"), Order::Less);
    assert_eq!(order_texts("abc", "ab"), Order::Greater);
    assert_eq!(order_texts("Z", "a"), Order::Less);
    assert_eq!(order_texts("é", "z"), Order::Greater);
}

#[test]
fn relations_on_orders() {
    let table = [
        (Relation::Lt, [true, false, false, false]),
        (Relation::Gt, [false, false, true, false]),
        (Relation::Ne, [true, false, true, true]),
        (Relation::Eq, [false, true, false, false]),
        (Relation::Ngt, [true, true, false, false]),
        (Relation::Nlt, [false, true, true, false]),
    ];
    let orders = [Order::Less, Order::Equal, Order::Greater, Order::Unordered];
    for (relation, row) in table {
        for (order, expected) in orders.iter().zip(row) {
            assert_eq!(decide(relation, *order), expected, "{:?} {:?}", relation, order);
        }
    }
    assert_eq!(order_integers(-1, 1), Order::Less);
    assert_eq!(order_integers(5, 5), Order::Equal);
    assert_eq!(order_integers(i128::MAX, i128::MIN), Order::Greater);
}

#[test]
fn the_operator_table() {
    assert_eq!(binding(Rule::comparison), Some(Binding { level: 1, assoc: Assoc::Left }));
    assert_eq!(binding(Rule::add), Some(Binding { level: 2, assoc: Assoc::Left }));
    assert_eq!(binding(Rule::subtract), Some(Binding { level: 2, assoc: Assoc::Left }));
    assert_eq!(binding(Rule::multiply), Some(Binding { level: 3, assoc: Assoc::Left }));
    assert_eq!(binding(Rule::divide), Some(Binding { level: 3, assoc: Assoc::Left }));
    assert_eq!(binding(Rule::power), Some(Binding { level: 4, assoc: Assoc::Right }));
    assert_eq!(binding(Rule::ident), None);
    assert_eq!(binding(Rule::lt), None);
    assert_eq!(arithmetic_for(Rule::power), Some(Arithmetic::Power));
    assert_eq!(arithmetic_for(Rule::comparison), None);
}

fn run_of(rules: &[Rule]) -> Vec<Pair> {
    rules.iter().map(|r| leaf(*r, "x")).collect()
}

fn l(i: usize) -> Box<Term> {
    Box::new(Term::Leaf(i))
}

fn b(op: usize, left: Box<Term>, right: Box<Term>) -> Box<Term> {
    Box::new(Term::Binary(op, left, right))
}

#[test]
fn climbing_groups_by_precedence() {
    // 1 + a * 3 ^ 2
    let nodes = run_of(&[Rule::num, Rule::add, Rule::ident, Rule::multiply, Rule::num, Rule::power, Rule::num]);
    assert_eq!(grow(&nodes), Ok(*b(1, l(0), b(3, l(2), b(5, l(4), l(6))))));
    // a - b - c
    let nodes = run_of(&[Rule::ident, Rule::subtract, Rule::ident, Rule::subtract, Rule::ident]);
    assert_eq!(grow(&nodes), Ok(*b(3, b(1, l(0), l(2)), l(4))));
    // a ^ b ^ c
    let nodes = run_of(&[Rule::ident, Rule::power, Rule::ident, Rule::power, Rule::ident]);
    assert_eq!(grow(&nodes), Ok(*b(1, l(0), b(3, l(2), l(4)))));
    // a * b + c < d
    let nodes = run_of(&[Rule::ident, Rule::multiply, Rule::ident, Rule::add, Rule::ident, Rule::comparison, Rule::ident]);
    assert_eq!(grow(&nodes), Ok(*b(5, b(3, b(1, l(0), l(2)), l(4)), l(6))));
    // one operand
    assert_eq!(grow(&run_of(&[Rule::ident])), Ok(Term::Leaf(0)));
}

#[test]
fn climbing_reports_what_is_missing() {
    assert_eq!(grow(&run_of(&[])), Err(0));
    assert_eq!(grow(&run_of(&[Rule::ident, Rule::add])), Err(2));
    assert_eq!(grow(&run_of(&[Rule::ident, Rule::ident])), Err(1));
    assert_eq!(grow(&run_of(&[Rule::ident, Rule::add, Rule::ident, Rule::ident])), Err(3));
}

#[test]
fn errors_carry_kind_and_message() {
    let span = Span { start: 1, end: 2, line: 3, column: 4 };
    let e = RendererError::new_from_span(Cause::KeyNotFound, span);
    assert_eq!(e.span, span);
    assert_eq!(e.kind(), ErrorKind::UndefinedPath);
    assert_eq!(e.error_msg(), "key or index not found");
    let all = [
        (Cause::VariableNotFound, ErrorKind::UndefinedVariable, "variable not found"),
        (Cause::KeyNotFound, ErrorKind::UndefinedPath, "key or index not found"),
        (
            Cause::LeftOperandNotNumber,
            ErrorKind::TypeMismatch,
            "left operand of an arithmetic operator must be a number",
        ),
        (
            Cause::RightOperandNotNumber,
            ErrorKind::TypeMismatch,
            "right operand of an arithmetic operator must be a number",
        ),
        (Cause::OperandsNotComparable, ErrorKind::TypeMismatch, "operands cannot be compared"),
        (Cause::KeyNotString, ErrorKind::TypeMismatch, "subscript key must be a string"),
        (Cause::PredicateNotBoolean, ErrorKind::TypeMismatch, "predicate must be boolean"),
        (Cause::NotIterable, ErrorKind::TypeMismatch, "cannot iterate over non-collection"),
        (Cause::NotPrintable, ErrorKind::TypeMismatch, "unsupported value type in template output"),
        (Cause::MissingArgument, ErrorKind::TypeMismatch, "function called with too few arguments"),
        (Cause::UnknownFunction, ErrorKind::UnknownFunction, "unknown function"),
        (Cause::Unsupported, ErrorKind::UnsupportedConstruct, "construct not supported"),
    ];
    for (cause, kind, message) in all {
        assert_eq!(cause.kind(), kind);
        assert_eq!(RendererError::new_from_span(cause, span).error_msg(), message);
    }
}

#[test]
fn descriptions_name_the_node() {
    let template = "ab\n{{ nothing }}";
    let span = Span { start: 6, end: 13, line: 2, column: 4 };
    let e = RendererError::new_from_span(Cause::VariableNotFound, span);
    assert_eq!(e.describe(template), "variable not found: `nothing` (at 2:4)");
    let e = RendererError::new_from_span(Cause::KeyNotFound, Span { start: 0, end: 2, line: 1, column: 1 });
    assert_eq!(e.describe("ébc"), "key or index not found: `éb` (at 1:1)");
    // a span that does not lie in the text names nothing
    let e = RendererError::new_from_span(Cause::Unsupported, Span { start: 2, end: 9, line: 10, column: 120 });
    assert_eq!(e.describe("abc"), "construct not supported: `` (at 10:120)");
    let e = RendererError::new_from_span(Cause::Unsupported, Span { start: 2, end: 1, line: 0, column: 0 });
    assert_eq!(e.describe("abc"), "construct not supported: `` (at 0:0)");
    let e = RendererError::new_from_span(Cause::NotIterable, Span { start: 3, end: 3, line: 1, column: 4 });
    assert_eq!(e.describe("abc"), "cannot iterate over non-collection: `` (at 1:4)");
}

#[test]
fn texts_are_the_same_by_their_characters() {
    let v = Value::Object(vec![
        entry_of("é", whole(1)),
        entry_of("e", whole(2)),
        entry_of("", whole(3)),
        entry_of("ab", whole(4)),
        entry_of("a", whole(5)),
    ]);
    assert_eq!(v.get("é"), Some(&whole(1)));
    assert_eq!(v.get("e"), Some(&whole(2)));
    assert_eq!(v.get(""), Some(&whole(3)));
    assert_eq!(v.get("a"), Some(&whole(5)));
    assert_eq!(v.get("ab"), Some(&whole(4)));
    assert_eq!(v.get("abc"), None);
    assert_eq!(v.get("b"), None);
}

#[test]
fn frames_hold_the_loop_metadata() {
    let names = vec!["k".to_string(), "v".to_string()];
    let scope = make_frame(&names, text("key"), whole(9), 2, 3, Value::Null);
    let meta = Value::Object(vec![
        entry_of("index", whole(2)),
        entry_of("index1", whole(3)),
        entry_of("is_first", Value::Bool(false)),
        entry_of("is_last", Value::Bool(true)),
        entry_of("parent", Value::Null),
    ]);
    assert_eq!(
        scope,
        Value::Object(vec![entry_of("loop", meta), entry_of("k", text("key")), entry_of("v", whole(9))])
    );
    let names = vec!["x".to_string()];
    let scope = make_frame(&names, whole(0), whole(9), 0, 1, whole(5));
    assert_eq!(scope.get("x"), Some(&whole(9)));
    let meta = scope.get("loop").unwrap();
    assert_eq!(meta.get("is_first"), Some(&Value::Bool(true)));
    assert_eq!(meta.get("is_last"), Some(&Value::Bool(true)));
    assert_eq!(meta.get("parent"), Some(&whole(5)));
    for index in 0..3usize {
        let scope = make_frame(&names, whole(0), whole(0), index, 3, Value::Null);
        let meta = scope.get("loop").unwrap();
        assert_eq!(meta.get("index"), Some(&whole(index as i128)));
        assert_eq!(meta.get("index1"), Some(&whole(index as i128 + 1)));
        assert_eq!(meta.get("is_first"), Some(&Value::Bool(index == 0)));
        assert_eq!(meta.get("is_last"), Some(&Value::Bool(index == 2)));
    }
}

#[test]
fn loops_run_over_sequences_and_mappings() {
    let list = Value::Array(vec![text("p"), text("q")]);
    assert_eq!(entry_count(&list), Some(2));
    assert_eq!(entry(&list, 1), Some((whole(1), text("q"))));
    assert_eq!(entry(&list, 2), None);
    let map = Value::Object(vec![entry_of("x", whole(1)), entry_of("y", whole(2))]);
    assert_eq!(entry_count(&map), Some(2));
    assert_eq!(entry(&map, 0), Some((text("x"), whole(1))));
    assert_eq!(entry(&whole(3), 0), None);
    assert_eq!(entry_count(&whole(3)), None);
    assert_eq!(entry_count(&text("abc")), None);
    assert_eq!(entry_count(&Value::Null), None);
    assert_eq!(entry_count(&Value::Bool(true)), None);

    let head = Pair::new(
        Rule::for_stmt,
        String::new(),
        Span { start: 0, end: 0, line: 1, column: 1 },
        vec![leaf(Rule::ident, "k"), leaf(Rule::ident, "v"), leaf(Rule::expr, "m")],
    );
    assert_eq!(names_of(&head), Some(vec!["k".to_string(), "v".to_string()]));
    let head = Pair::new(
        Rule::for_stmt,
        String::new(),
        Span { start: 0, end: 0, line: 1, column: 1 },
        vec![leaf(Rule::expr, "m")],
    );
    assert_eq!(names_of(&head), None);
}

#[test]
fn builtins() {
    let span = Span { start: 0, end: 1, line: 1, column: 1 };
    let interp = Interpreter::new(sample(), 0, never, equal, stars, none);
    assert_eq!(
        interp.call_builtin(Builtin::FirstArgument, vec![whole(1), whole(2)], span),
        Ok(whole(1))
    );
    assert_eq!(
        interp.call_builtin(Builtin::FirstArgument, vec![], span),
        Err(RendererError::new_from_span(Cause::MissingArgument, span))
    );
    assert_eq!(
        interp.call_builtin(Builtin::Host(3), vec![whole(1)], span),
        Err(RendererError::new_from_span(Cause::UnknownFunction, span))
    );
}

#[test]
fn registered_functions_can_be_called() {
    let mut interp = Interpreter::new(sample(), 16, never, equal, stars, none);
    interp.register("first".to_string(), Builtin::FirstArgument);
    let unit = RinjaParser::parse(Rule::tmpl_unit, "{{ first(a) }}{{ existsIn(a) }}").unwrap();
    interp.visit_tmpl_unit(&unit).unwrap();
    assert_eq!(interp.render_result, "4343");
}

#[test]
fn the_kernel_decides_what_doubles_are() {
    // a kernel that knows no arithmetic, calls all doubles equal and
    // writes each as a star
    let mut interp = Interpreter::new(
        Value::Object(vec![entry_of("f", Value::Number(Number::Float(0)))]),
        0,
        never,
        equal,
        stars,
        none,
    );
    let unit = RinjaParser::parse(
        Rule::tmpl_unit,
        "{{ f }}{% if f < 1 %}less{% else if f == 1 %}same{% endif %}\
         {% if 1 < 2 %}!{% endif %}{% if 1 == 2 %}?{% endif %}",
    )
    .unwrap();
    interp.visit_tmpl_unit(&unit).unwrap();
    // two integers are compared by the kernel too
    assert_eq!(interp.render_result, "*same?");
    let pairs = RinjaParser::parse(Rule::expr, "1 + 1").unwrap();
    assert_eq!(interp.eval_expr(&pairs), Ok(Value::Null));
}

#[test]
fn relation_of_an_operator_node() {
    let op = Pair::new(
        Rule::comparison,
        "<=".to_string(),
        Span { start: 0, end: 2, line: 1, column: 1 },
        vec![leaf(Rule::ngt, "<=")],
    );
    assert_eq!(relation_for(&op), Some(Relation::Ngt));
    assert_eq!(relation_for(&leaf(Rule::comparison, "<")), None);
    assert_eq!(relation_for(&leaf(Rule::add, "+")), None);
}

#[test]
fn spans_of_nodes() {
    let nodes = vec![leaf(Rule::ident, "abc")];
    assert_eq!(span_of(&nodes, 0), Span { start: 0, end: 3, line: 1, column: 1 });
    assert_eq!(span_of(&nodes, 1), Span { start: 0, end: 0, line: 0, column: 0 });
    assert_eq!(Span::none(), Span { start: 0, end: 0, line: 0, column: 0 });
    assert_eq!(nodes[0].as_rule(), Rule::ident);
    assert_eq!(nodes[0].as_str(), "abc");
    assert_eq!(nodes[0].as_span(), nodes[0].span);
    assert!(nodes[0].into_inner().is_empty());
}

#[test]
fn characters_of_a_text() {
    assert_eq!(characters("aé\n"), vec!['a', 'é', '\n']);
    assert_eq!(characters(""), Vec::<char>::new());
    // positions count characters, not bytes
    let pairs = RinjaParser::parse(Rule::tmpl_unit, "é{{ a }}").unwrap();
    assert_eq!((pairs[1].span.start, pairs[1].span.end), (4, 5));
    assert_eq!(pairs[0].as_str(), "é");
}
