use rinja::error::{Cause, ErrorKind, RendererError};
use rinja::interpreter::{render, Interpreter, Visitor};
use rinja::kernel::{Arithmetic, Order};
use rinja::parser::{ParseError, RinjaParser};
use rinja::semantics::Builtin;
use rinja::syntax::{Pair, Rule};
use rinja::value::{Member, Number, Value};

fn double(n: Number) -> f64 {
    match n {
        Number::Integer(i) => i as f64,
        Number::Float(bits) => f64::from_bits(bits),
    }
}

fn arithmetic(op: Arithmetic, a: Number, b: Number) -> Option<Number> {
    let (x, y) = (double(a), double(b));
    let r = match op {
        Arithmetic::Add => x + y,
        Arithmetic::Subtract => x - y,
        Arithmetic::Multiply => x * y,
        Arithmetic::Divide => x / y,
        Arithmetic::Power => x.powf(y),
    };
    if r.is_finite() {
        Some(Number::Float(r.to_bits()))
    } else {
        None
    }
}

fn compare(a: Number, b: Number) -> Order {
    match double(a).partial_cmp(&double(b)) {
        Some(std::cmp::Ordering::Less) => Order::Less,
        Some(std::cmp::Ordering::Equal) => Order::Equal,
        Some(std::cmp::Ordering::Greater) => Order::Greater,
        None => Order::Unordered,
    }
}

fn display(bits: u64) -> String {
    f64::from_bits(bits).to_string()
}

/// The host's own functions: 0 counts its arguments, 1 gives the length of
/// a string, and there is no other.
fn native(id: u32, arguments: Vec<Value>) -> Result<Value, Cause> {
    match (id, arguments.as_slice()) {
        (0, all) => Ok(Value::Number(Number::Integer(all.len() as i128))),
        (1, [Value::String(s)]) => Ok(Value::Number(Number::Integer(s.chars().count() as i128))),
        (1, [_]) => Err(Cause::KeyNotString),
        (1, _) => Err(Cause::MissingArgument),
        _ => Err(Cause::UnknownFunction),
    }
}

fn from_json(v: &serde_json::Value) -> Value {
    match v {
        serde_json::Value::Null => Value::Null,
        serde_json::Value::Bool(b) => Value::Bool(*b),
        serde_json::Value::Number(n) => match n.as_i128() {
            Some(i) => Value::Number(Number::Integer(i)),
            None => Value::Number(Number::Float(n.as_f64().unwrap().to_bits())),
        },
        serde_json::Value::String(s) => Value::String(s.clone()),
        serde_json::Value::Array(items) => Value::Array(items.iter().map(from_json).collect()),
        serde_json::Value::Object(map) => Value::Object(
            map.iter().map(|(k, v)| Member { key: k.clone(), value: from_json(v) }).collect(),
        ),
    }
}

fn document(text: &str) -> Value {
    from_json(&serde_json::from_str::<serde_json::Value>(text).unwrap())
}

fn as_f64(v: &Value) -> Option<f64> {
    match v {
        Value::Number(n) => Some(double(*n)),
        _ => None,
    }
}

type Engine = Interpreter<
    fn(Arithmetic, Number, Number) -> Option<Number>,
    fn(Number, Number) -> Order,
    fn(u64) -> String,
    fn(u32, Vec<Value>) -> Result<Value, Cause>,
>;

fn interpreter(doc: &str, cap: usize) -> Engine {
    Interpreter::new(
        document(doc),
        cap,
        arithmetic as fn(Arithmetic, Number, Number) -> Option<Number>,
        compare as fn(Number, Number) -> Order,
        display as fn(u64) -> String,
        native as fn(u32, Vec<Value>) -> Result<Value, Cause>,
    )
}

fn rendered(template: &str, doc: &str) -> Result<String, RendererError> {
    let unit = RinjaParser::parse(Rule::tmpl_unit, template).unwrap();
    render(&unit, document(doc), arithmetic, compare, display, native)
}

fn evaluated(expr: &str, doc: &str) -> Result<Value, RendererError> {
    let pairs = RinjaParser::parse(Rule::expr, expr).unwrap();
    interpreter(doc, 0).eval_expr(&pairs)
}

const DOC: &str = r#"{"a":43, "b":[0,1,2], "c":{"a":0}}"#;

#[test]
fn strange_bug() {
    let renderer_tmpl = r#"## set a = b
{{ a[1] }}
## if a[0] == 1
abc
## set a[0] = 42
## else if a[1] == 1
456
## else 
789
## endif
{{ a[0] }}
    "#;
    let res = RinjaParser::parse(Rule::tmpl_unit, renderer_tmpl);
    let mut interp = interpreter(DOC, 200);
    interp.visit_tmpl_unit(&res.unwrap()).unwrap();
    println!("Renderer Template:\n{}\nRendererResult:\n{}", renderer_tmpl, interp.render_result);
    assert_eq!(interp.render_result.as_str(), "1\n456\n0\n    ");
}

#[test]
fn test_num_expr() {
    let res = RinjaParser::parse(Rule::expr, "1+a*3^2");
    let interp = interpreter(r#"{"a":42}"#, 200);
    let res = interp.eval_expr(&res.unwrap()).unwrap();
    assert_eq!(as_f64(&res).unwrap(), 379.0);

    let renderer_tmpl = "simple:{{ a }}, array:{{b[1]}},subs:{{c.a}}";
    let res = RinjaParser::parse(Rule::tmpl_unit, renderer_tmpl);
    let mut interp = interpreter(DOC, 200);
    interp.visit_tmpl_unit(&res.unwrap()).unwrap();
    println!("Renderer Template:\n{}\nRendererResult:\n{}", renderer_tmpl, interp.render_result);
    assert_eq!(interp.render_result.as_str(), "simple:43, array:1,subs:0");

    let renderer_tmpl = r#"## set a = b
{{ a[1] }}
## if a[0] == 0
abc
## set a[0] = 42
## else if a[1] == 1
456
## else 
789
## endif
{{a[0] }}
    "#;
    let res = RinjaParser::parse(Rule::tmpl_unit, renderer_tmpl);
    let mut interp = interpreter(DOC, 200);
    interp.visit_tmpl_unit(&res.unwrap()).unwrap();
    println!("Renderer Template:\n{}\nRendererResult:\n{}", renderer_tmpl, interp.render_result);
    assert_eq!(interp.render_result.as_str(), "1\nabc\n42\n    ");
}

#[test]
fn manual_test() {
    // simple string
    let res = RinjaParser::parse(Rule::tmpl_unit, "123");
    println!("{:?}", res);
    assert!(res.is_ok());

    // simple expr
    let res = RinjaParser::parse(Rule::tmpl_unit, "123{{a}}bcd");
    assert!(res.is_ok());

    // simple expr that fail
    let res = RinjaParser::parse(Rule::tmpl_unit, "123{{1a}}bcd");
    assert!(res.is_err());

    let res = RinjaParser::parse(Rule::tmpl_unit, "{% for a in b %}{% endfor %}");
    println!("{:?}", res);
    assert!(res.is_ok());
}

#[test]
fn literal_template_renders_itself() {
    let text = "plain text, with a } and a # and a { in it\nand a second line";
    assert_eq!(rendered(text, DOC).unwrap(), text);
    assert_eq!(rendered("", DOC).unwrap(), "");
}

#[test]
fn arithmetic_follows_precedence() {
    assert_eq!(as_f64(&evaluated("1+2*3", "{}").unwrap()), Some(7.0));
    assert_eq!(as_f64(&evaluated("(1+2)*3", "{}").unwrap()), Some(9.0));
    assert_eq!(as_f64(&evaluated("2^3^2", "{}").unwrap()), Some(512.0));
    assert_eq!(as_f64(&evaluated("8-3-2", "{}").unwrap()), Some(3.0));
    assert_eq!(as_f64(&evaluated("8/4/2", "{}").unwrap()), Some(1.0));
    assert_eq!(as_f64(&evaluated("2*3^2", "{}").unwrap()), Some(18.0));
    assert_eq!(as_f64(&evaluated("1.5 + 1", "{}").unwrap()), Some(2.5));
    assert_eq!(evaluated("1 + 2 < 2 * 2", "{}").unwrap(), Value::Bool(true));
}

#[test]
fn arithmetic_results_render_as_numbers() {
    assert_eq!(rendered("{{ 2+2 }}", "{}").unwrap(), "4");
    assert_eq!(rendered("{{ 5/2 }}", "{}").unwrap(), "2.5");
    assert_eq!(rendered("{{ a }}", r#"{"a":-17}"#).unwrap(), "-17");
    assert_eq!(rendered("{{ a }}", r#"{"a":0}"#).unwrap(), "0");
    assert_eq!(rendered("{{ a }}", r#"{"a":18446744073709551615}"#).unwrap(), "18446744073709551615");
    assert_eq!(rendered("{{ a }}", r#"{"a":1.25}"#).unwrap(), "1.25");
    assert_eq!(rendered("{{ 1000000 }}", "{}").unwrap(), "1000000");
}

#[test]
fn division_by_zero_gives_null() {
    assert_eq!(evaluated("1/0", "{}").unwrap(), Value::Null);
    let e = rendered("{{ 1/0 }}", "{}").unwrap_err();
    assert_eq!(e.cause, Cause::NotPrintable);
}

#[test]
fn comparisons_give_booleans() {
    assert_eq!(evaluated("1 < 2", "{}").unwrap(), Value::Bool(true));
    assert_eq!(evaluated("2 <= 2", "{}").unwrap(), Value::Bool(true));
    assert_eq!(evaluated("1 > 2", "{}").unwrap(), Value::Bool(false));
    assert_eq!(evaluated("2 >= 3", "{}").unwrap(), Value::Bool(false));
    assert_eq!(evaluated("2 == 2", "{}").unwrap(), Value::Bool(true));
    assert_eq!(evaluated("2 != 2", "{}").unwrap(), Value::Bool(false));
    assert_eq!(evaluated("2 == 2.0", "{}").unwrap(), Value::Bool(true));
    assert_eq!(evaluated("1+1 == 2", "{}").unwrap(), Value::Bool(true));
    assert_eq!(evaluated(r#""abc" < "abd""#, "{}").unwrap(), Value::Bool(true));
    assert_eq!(evaluated(r#""ab" < "abc""#, "{}").unwrap(), Value::Bool(true));
    assert_eq!(evaluated(r#""b" == "b""#, "{}").unwrap(), Value::Bool(true));
    assert_eq!(evaluated("t != f", r#"{"t":true,"f":false}"#).unwrap(), Value::Bool(true));
    assert_eq!(evaluated("f < t", r#"{"t":true,"f":false}"#).unwrap(), Value::Bool(true));
    assert_eq!(evaluated("n == n", r#"{"n":null}"#).unwrap(), Value::Bool(true));
    // a boolean is no output
    let e = rendered("{{ 1 < 2 }}", "{}").unwrap_err();
    assert_eq!(e.kind(), ErrorKind::TypeMismatch);
    assert_eq!(e.cause, Cause::NotPrintable);
}

#[test]
fn numbers_are_compared_as_doubles() {
    // both integers stand for the same double
    assert_eq!(evaluated("9007199254740993 == 9007199254740992", "{}").unwrap(), Value::Bool(true));
    assert_eq!(evaluated("9007199254740993 > 9007199254740992", "{}").unwrap(), Value::Bool(false));
    assert_eq!(evaluated("9007199254740993 <= 9007199254740992", "{}").unwrap(), Value::Bool(true));
    assert_eq!(evaluated("9007199254740994 > 9007199254740992", "{}").unwrap(), Value::Bool(true));
    assert_eq!(
        evaluated("a == b", r#"{"a":9007199254740993,"b":9007199254740992.0}"#).unwrap(),
        Value::Bool(true)
    );
    assert_eq!(evaluated("a != b", r#"{"a":-3,"b":-3.0}"#).unwrap(), Value::Bool(false));
    assert_eq!(evaluated("a < b", r#"{"a":-3,"b":2}"#).unwrap(), Value::Bool(true));
}

#[test]
fn failures_name_their_node() {
    let template = "ab\n{{ nothing }}";
    let e = rendered(template, DOC).unwrap_err();
    assert_eq!(e.describe(template), "variable not found: `nothing` (at 2:4)");
    let template = "{{ b[3] }}";
    let e = rendered(template, DOC).unwrap_err();
    assert_eq!(e.describe(template), "key or index not found: `3` (at 1:6)");
    let template = "{{ c.a }}\n## set c.zz = 1";
    let e = rendered(template, DOC).unwrap_err();
    assert_eq!(e.describe(template), "key or index not found: `zz` (at 2:10)");
    let template = "{% set zz[0] = 1 %}";
    let e = rendered(template, DOC).unwrap_err();
    assert_eq!(e.describe(template), "variable not found: `zz` (at 1:8)");
    let template = "{{ a + \"s\" }}";
    let e = rendered(template, DOC).unwrap_err();
    assert_eq!(
        e.describe(template),
        "right operand of an arithmetic operator must be a number: `+` (at 1:6)"
    );
}

#[test]
fn chained_comparison_is_a_type_mismatch() {
    let e = evaluated("1 < 2 < 3", "{}").unwrap_err();
    assert_eq!(e.cause, Cause::OperandsNotComparable);
    assert_eq!(e.kind(), ErrorKind::TypeMismatch);
    let e = evaluated(r#"1 + "a""#, "{}").unwrap_err();
    assert_eq!(e.cause, Cause::RightOperandNotNumber);
    assert_eq!(e.span.start, 2);
    assert_eq!(e.span.end, 3);
    let e = evaluated(r#""a" * 2"#, "{}").unwrap_err();
    assert_eq!(e.cause, Cause::LeftOperandNotNumber);
    let e = evaluated(r#""a" - "b""#, "{}").unwrap_err();
    assert_eq!(e.cause, Cause::LeftOperandNotNumber);
    // the left side fails first
    let e = evaluated(r#""a" + 1 + nothing"#, "{}").unwrap_err();
    assert_eq!(e.cause, Cause::LeftOperandNotNumber);
    let e = evaluated(r#"nothing + ("a" * 1)"#, "{}").unwrap_err();
    assert_eq!(e.cause, Cause::VariableNotFound);
    let e = evaluated(r#"1 == "a""#, "{}").unwrap_err();
    assert_eq!(e.cause, Cause::OperandsNotComparable);
}

#[test]
fn set_changes_only_its_slot() {
    let out = rendered(
        "{% set b[0] = 42 %}{{ b[0] }},{{ b[1] }},{{ b[2] }},{{ a }},{{ c.a }}",
        DOC,
    );
    assert_eq!(out.unwrap(), "42,1,2,43,0");
    let out = rendered(r#"{% set c["a"] = "x" %}{{ c.a }}{{ a }}"#, DOC);
    assert_eq!(out.unwrap(), "x43");
    let out = rendered("{% set a = c %}{{ a.a }}", DOC);
    assert_eq!(out.unwrap(), "0");
}

#[test]
fn set_creates_nothing() {
    let e = rendered("{% set z = 1 %}", DOC).unwrap_err();
    assert_eq!(e.kind(), ErrorKind::UndefinedVariable);
    let e = rendered("{% set b[3] = 1 %}", DOC).unwrap_err();
    assert_eq!(e.kind(), ErrorKind::UndefinedPath);
    assert_eq!(e.cause, Cause::KeyNotFound);
    let e = rendered("{% set c.z = 1 %}", DOC).unwrap_err();
    assert_eq!(e.kind(), ErrorKind::UndefinedPath);
    let mut interp = interpreter(DOC, 0);
    let unit = RinjaParser::parse(Rule::tmpl_unit, "x{% set b[0] = 5 %}y{% set b[9] = 1 %}z").unwrap();
    assert!(interp.visit_tmpl_unit(&unit).is_err());
    assert_eq!(interp.render_result, "xy");
    assert_eq!(interp.env, document(r#"{"a":43, "b":[5,1,2], "c":{"a":0}}"#));
}

#[test]
fn if_chain_runs_one_branch() {
    let t = "{% if a == 1 %}one{% else if a == 43 %}two{% else if a == 43 %}three{% else %}four{% endif %}";
    assert_eq!(rendered(t, DOC).unwrap(), "two");
    let t = "{% if a == 43 %}one{% else if a == 43 %}two{% else %}four{% endif %}";
    assert_eq!(rendered(t, DOC).unwrap(), "one");
    let t = "{% if a == 1 %}one{% else if a == 2 %}two{% else %}four{% endif %}";
    assert_eq!(rendered(t, DOC).unwrap(), "four");
    let t = "[{% if a == 1 %}one{% else if a == 2 %}two{% endif %}]";
    assert_eq!(rendered(t, DOC).unwrap(), "[]");
    // the predicate behind a true one is not evaluated
    let t = "{% if a == 43 %}one{% else if missing %}two{% endif %}";
    assert_eq!(rendered(t, DOC).unwrap(), "one");
}

#[test]
fn predicate_must_be_boolean() {
    let e = rendered("{% if a %}one{% endif %}", DOC).unwrap_err();
    assert_eq!(e.cause, Cause::PredicateNotBoolean);
    assert_eq!(e.kind(), ErrorKind::TypeMismatch);
    assert_eq!(e.error_msg(), "predicate must be boolean");
}

#[test]
fn loop_over_nothing_runs_nothing() {
    let mut interp = interpreter(r#"{"e":[], "o":{}}"#, 0);
    let unit = RinjaParser::parse(
        Rule::tmpl_unit,
        "[{% for x in e %}never{% endfor %}{% for k, v in o %}never{% endfor %}]",
    )
    .unwrap();
    interp.visit_tmpl_unit(&unit).unwrap();
    assert_eq!(interp.render_result, "[]");
    assert_eq!(interp.tmp_var.len(), 0);
}

#[test]
fn loop_metadata() {
    let t = "{% for x in b %}{{ x }}:{{ loop.index }}:{{ loop.index1 }}:\
             {% if loop.is_first %}F{% endif %}{% if loop.is_last %}L{% endif %};{% endfor %}";
    assert_eq!(rendered(t, DOC).unwrap(), "0:0:1:F;1:1:2:;2:2:3:L;");
}

#[test]
fn loops_bind_their_names() {
    let t = "{% for k, v in c %}{{ k }}={{ v }};{% endfor %}";
    assert_eq!(rendered(t, r#"{"c":{"x":1,"y":"two"}}"#).unwrap(), "x=1;y=two;");
    let t = "{% for i, v in b %}{{ i }}>{{ v }};{% endfor %}";
    assert_eq!(rendered(t, r#"{"b":["p","q"]}"#).unwrap(), "0>p;1>q;");
    // a loop variable hides the document's entry, and is gone after the loop
    let t = "{% for a in b %}{{ a }}{% endfor %}{{ a }}";
    assert_eq!(rendered(t, DOC).unwrap(), "01243");
}

#[test]
fn nested_loops_see_their_parent() {
    let t = "{% for x in b %}{% for y in b %}{{ loop.parent.index }}{{ loop.index }} {% endfor %}{% endfor %}";
    assert_eq!(rendered(t, r#"{"b":[7,8]}"#).unwrap(), "00 01 10 11 ");
    let t = "{% for x in b %}{% if loop.parent == loop.parent %}{% endif %}{% endfor %}";
    assert_eq!(rendered(t, r#"{"b":[7]}"#).unwrap(), "");
}

#[test]
fn frames_are_popped_when_a_body_fails() {
    let mut interp = interpreter(DOC, 0);
    let unit = RinjaParser::parse(
        Rule::tmpl_unit,
        "{% for x in b %}{% for y in b %}{{ x }}{{ nothing }}{% endfor %}{% endfor %}",
    )
    .unwrap();
    let e = interp.visit_tmpl_unit(&unit).unwrap_err();
    assert_eq!(e.kind(), ErrorKind::UndefinedVariable);
    assert_eq!(interp.tmp_var.len(), 0);
    assert_eq!(interp.render_result, "0");
}

#[test]
fn failures_are_told_apart() {
    let e = rendered("ab\n{{ nothing }}", DOC).unwrap_err();
    assert_eq!(e.kind(), ErrorKind::UndefinedVariable);
    assert_eq!(e.cause, Cause::VariableNotFound);
    assert_eq!((e.span.line, e.span.column), (2, 4));
    assert_eq!((e.span.start, e.span.end), (6, 13));
    assert_eq!(e.error_msg(), "variable not found");

    let e = rendered("{{ b[3] }}", DOC).unwrap_err();
    assert_eq!(e.kind(), ErrorKind::UndefinedPath);
    assert_eq!((e.span.start, e.span.end), (5, 6));
    let e = rendered("{{ c.b }}", DOC).unwrap_err();
    assert_eq!(e.kind(), ErrorKind::UndefinedPath);
    let e = rendered("{{ nothing.b }}", DOC).unwrap_err();
    assert_eq!(e.kind(), ErrorKind::UndefinedVariable);

    let e = rendered("{% for x in a %}{% endfor %}", DOC).unwrap_err();
    assert_eq!(e.kind(), ErrorKind::TypeMismatch);
    assert_eq!(e.cause, Cause::NotIterable);
    assert_eq!(e.error_msg(), "cannot iterate over non-collection");

    let e = rendered("{{ b }}", DOC).unwrap_err();
    assert_eq!(e.kind(), ErrorKind::TypeMismatch);
    assert_eq!(e.cause, Cause::NotPrintable);
    assert_eq!(e.error_msg(), "unsupported value type in template output");
    let e = rendered("{{ c }}", DOC).unwrap_err();
    assert_eq!(e.cause, Cause::NotPrintable);

    let e = rendered("{{ f(1) }}", DOC).unwrap_err();
    assert_eq!(e.kind(), ErrorKind::UnknownFunction);
    assert_eq!(e.error_msg(), "unknown function");
}

#[test]
fn unsupported_nodes_are_failures() {
    let stray = Pair::new(
        Rule::if_body,
        String::from("x"),
        rinja::syntax::Span { start: 0, end: 1, line: 1, column: 1 },
        Vec::new(),
    );
    let mut interp = interpreter(DOC, 0);
    let e = interp.visit_tmpl_unit(&vec![stray]).unwrap_err();
    assert_eq!(e.kind(), ErrorKind::UnsupportedConstruct);
    assert_eq!(e.cause, Cause::Unsupported);
    let e = interpreter(DOC, 0).eval_expr(&Vec::new()).unwrap_err();
    assert_eq!(e.kind(), ErrorKind::UnsupportedConstruct);
}

#[test]
fn subscripts_take_names_indices_and_strings() {
    assert_eq!(rendered(r#"{{ c["a"] }}"#, DOC).unwrap(), "0");
    assert_eq!(rendered(r#"{{ d.e[1].f }}"#, r#"{"d":{"e":[0,{"f":"deep"}]}}"#).unwrap(), "deep");
    assert_eq!(rendered(r#"{{ d[k] }}"#, r#"{"d":{"x":5},"k":"x"}"#).unwrap(), "5");
    assert_eq!(rendered("{{ b[ 2 ] }}", DOC).unwrap(), "2");
    let e = rendered("{{ b[a] }}", DOC).unwrap_err();
    assert_eq!(e.cause, Cause::KeyNotString);
    assert_eq!(e.kind(), ErrorKind::TypeMismatch);
}

#[test]
fn builtin_gives_back_its_first_argument() {
    assert_eq!(rendered("{{ existsIn(a, b) }}", DOC).unwrap(), "43");
    assert_eq!(rendered(r#"{{ existsIn("x") }}"#, DOC).unwrap(), "x");
    let e = rendered("{{ existsIn() }}", DOC).unwrap_err();
    assert_eq!(e.cause, Cause::MissingArgument);
    // the name is looked up before the arguments are evaluated
    let e = rendered("{{ other(nothing) }}", DOC).unwrap_err();
    assert_eq!(e.kind(), ErrorKind::UnknownFunction);
}

#[test]
fn host_functions_can_be_registered() {
    let mut interp = interpreter(DOC, 0);
    interp.register("count".to_string(), Builtin::Host(0));
    interp.register("length".to_string(), Builtin::Host(1));
    interp.register("broken".to_string(), Builtin::Host(7));
    // an entry under a name that is taken is never found
    interp.register("existsIn".to_string(), Builtin::Host(0));
    let unit = RinjaParser::parse(
        Rule::tmpl_unit,
        r#"{{ count() }}{{ count(a, b, c) }}{{ length("four") }}{{ existsIn(a) }}{{ count(1, length("ab")) + length("abc") }}"#,
    )
    .unwrap();
    interp.visit_tmpl_unit(&unit).unwrap();
    assert_eq!(interp.render_result, "034435");

    let unit = RinjaParser::parse(Rule::tmpl_unit, "ab{{ length(1) }}").unwrap();
    let e = interp.visit_tmpl_unit(&unit).unwrap_err();
    assert_eq!(e.cause, Cause::KeyNotString);
    assert_eq!((e.span.start, e.span.end), (5, 11));
    let unit = RinjaParser::parse(Rule::tmpl_unit, "{{ broken() }}").unwrap();
    let e = interp.visit_tmpl_unit(&unit).unwrap_err();
    assert_eq!(e.kind(), ErrorKind::UnknownFunction);
    // the same function without an entry in the registry
    let e = rendered("{{ count() }}", DOC).unwrap_err();
    assert_eq!(e.kind(), ErrorKind::UnknownFunction);
}

#[test]
fn include_does_nothing() {
    assert_eq!(rendered(r#"a{% include "other" %}b"#, DOC).unwrap(), "ab");
}

#[test]
fn strings_render_as_they_are() {
    assert_eq!(rendered(r#"{{ "a b" }}{{ s }}"#, r#"{"s":"é{{"}"#).unwrap(), "a bé{{");
}

#[test]
fn number_literals_are_read_as_json() {
    assert_eq!(evaluated("42", "{}").unwrap(), Value::Number(Number::Integer(42)));
    assert_eq!(evaluated("0", "{}").unwrap(), Value::Number(Number::Integer(0)));
    assert_eq!(evaluated("2.5", "{}").unwrap(), Value::Number(Number::Float(2.5f64.to_bits())));
    assert_eq!(evaluated("1e2", "{}").unwrap(), Value::Number(Number::Float(100f64.to_bits())));
    assert_eq!(
        evaluated("18446744073709551616", "{}").unwrap(),
        Value::Number(Number::Float(18446744073709551616f64.to_bits()))
    );
    // a number that no double holds is no number
    let e = evaluated("1e999", "{}").unwrap_err();
    assert_eq!(e.cause, Cause::Unsupported);
    assert_eq!((e.span.start, e.span.end), (0, 5));
}

#[test]
fn parse_errors_name_the_position() {
    assert_eq!(
        RinjaParser::parse(Rule::tmpl_unit, "123{{1a}}bcd"),
        Err(ParseError { position: 3 })
    );
    assert_eq!(RinjaParser::parse(Rule::tmpl_unit, "{% if a %}x"), Err(ParseError { position: 0 }));
    assert_eq!(RinjaParser::parse(Rule::tmpl_unit, "ab{% endif %}"), Err(ParseError { position: 2 }));
    assert_eq!(RinjaParser::parse(Rule::expr, "+1"), Err(ParseError { position: 0 }));
    assert_eq!(RinjaParser::parse(Rule::ident, "a"), Err(ParseError { position: 0 }));
}

#[test]
fn parse_builds_the_tree() {
    let pairs = RinjaParser::parse(Rule::tmpl_unit, "a{{ b.c[1] + 2 }}\n## set x = 1\n").unwrap();
    let rules: Vec<Rule> = pairs.iter().map(|p| p.rule).collect();
    assert_eq!(rules, vec![Rule::tmpl_literal, Rule::expr, Rule::tmpl_literal, Rule::single_stmt, Rule::EOI]);
    assert_eq!(pairs[0].as_str(), "a");
    assert_eq!(pairs[1].as_str(), "b.c[1] + 2");
    assert_eq!((pairs[1].span.start, pairs[1].span.end), (4, 14));
    let inner: Vec<Rule> = pairs[1].inner.iter().map(|p| p.rule).collect();
    assert_eq!(inner, vec![Rule::subs, Rule::add, Rule::num]);
    let keys: Vec<(Rule, &str)> = pairs[1].inner[0].inner.iter().map(|p| (p.rule, p.as_str())).collect();
    assert_eq!(keys, vec![(Rule::ident, "b"), (Rule::ident, "c"), (Rule::uint, "1")]);
    assert_eq!(pairs[2].as_str(), "\n");
    assert_eq!(pairs[3].as_str(), "## set x = 1\n");
    assert_eq!((pairs[3].span.line, pairs[3].span.column), (2, 1));
    let stmt = &pairs[3].inner[0];
    assert_eq!(stmt.rule, Rule::set_stmt);
    assert_eq!(stmt.as_str(), "set x = 1");
    assert_eq!(stmt.inner[0].rule, Rule::lvalue);
    assert_eq!(stmt.inner[1].rule, Rule::expr);
    assert_eq!(pairs[4].as_str(), "");
    assert_eq!((pairs[4].span.line, pairs[4].span.column), (3, 1));

    let pairs = RinjaParser::parse(Rule::tmpl_unit, "{% if a<=1 %}x{% else if b %}y{% else %}z{% endif %}").unwrap();
    assert_eq!(pairs[0].rule, Rule::block);
    let chain = &pairs[0].inner[0];
    assert_eq!(chain.rule, Rule::if_block);
    let rules: Vec<Rule> = chain.inner.iter().map(|p| p.rule).collect();
    assert_eq!(
        rules,
        vec![Rule::if_stmt, Rule::if_body, Rule::else_if_stmt, Rule::else_if_body, Rule::else_body]
    );
    let test = &chain.inner[0].inner[0];
    assert_eq!(test.inner[1].rule, Rule::comparison);
    assert_eq!(test.inner[1].inner[0].rule, Rule::ngt);
}

#[test]
fn tags_may_run_over_lines() {
    assert_eq!(rendered("{{\n a \n}}{%\nif a == 43\n%}y{%\nendif\n%}", DOC).unwrap(), "43y");
    assert_eq!(rendered("##set a = 1\r\n{{a}}", DOC).unwrap(), "1");
    assert_eq!(rendered("## set a = 2", DOC).unwrap(), "");
}

#[test]
fn nested_blocks() {
    let t = "{% for x in b %}{% if x == 1 %}[one]{% else %}{% for y in b %}{% if y > x %}{{ y }}{% endif %}{% endfor %}{% endif %};{% endfor %}";
    assert_eq!(rendered(t, DOC).unwrap(), "12;[one];;");
    let t = "## for x in b\n## if x < 2\n{{ x }}\n## endif\n## endfor\nend";
    assert_eq!(rendered(t, DOC).unwrap(), "0\n1\nend");
}

#[test]
fn set_inside_a_loop_changes_the_document() {
    let t = "{% for x in b %}{% set a = a + x %}{% endfor %}{{ a }}";
    assert_eq!(rendered(t, DOC).unwrap(), "46");
    // the loop runs over what its target held when it started
    let t = "{% for x in b %}{% set b[2] = 9 %}{{ x }}{% endfor %}{{ b[2] }}";
    assert_eq!(rendered(t, DOC).unwrap(), "0129");
    // a loop variable is no slot of the document
    let e = rendered("{% for x in b %}{% set x = 1 %}{% endfor %}", DOC).unwrap_err();
    assert_eq!(e.kind(), ErrorKind::UndefinedVariable);
}

#[test]
fn expressions_with_strings_and_parentheses() {
    assert_eq!(rendered(r#"{{ "}}" }}{{ "{%" }}"#, DOC).unwrap(), "}}{%");
    assert_eq!(rendered("{{ ((a)) }}{{ (1+(2*(3))) }}", DOC).unwrap(), "437");
    assert_eq!(rendered("{{a}}{{a}}", DOC).unwrap(), "4343");
    assert_eq!(rendered("{{\ta\t+\t1\t}}", DOC).unwrap(), "44");
    assert_eq!(rendered("{{ 2 ^ 0.5 * 2 ^ 0.5 < 2.1 }}", DOC).unwrap_err().cause, Cause::NotPrintable);
    assert_eq!(as_f64(&evaluated("10 - 4 / 2 ^ 2 * 3", "{}").unwrap()), Some(7.0));
}

#[test]
fn texts_that_are_no_templates() {
    for text in [
        "{{",
        "{{ }}",
        "{{ a }",
        "{{ a + }}",
        "{{ (a }}",
        "{{ a[ }}",
        "{{ a. }}",
        "{{ f(a, ) }}",
        r#"{{ "abc }}"#,
        "{% set a %}",
        "{% set = 1 %}",
        "{% set a = %}",
        "{% for in b %}{% endfor %}",
        "{% for x b %}{% endfor %}",
        "{% for x in b %}",
        "{% if %}{% endif %}",
        "{% if a %}{% else %}{% else %}{% endif %}",
        "{% else %}",
        "{% endfor %}",
        "{% unknown %}",
        "## set a = 1 trailing",
        "## if a\n",
        "a ## b",
    ] {
        assert!(RinjaParser::parse(Rule::tmpl_unit, text).is_err(), "{:?}", text);
    }
}

#[test]
fn keywords_end_at_a_word_boundary() {
    // `iffy` is no `if`, and `set_a` no `set`
    assert!(RinjaParser::parse(Rule::tmpl_unit, "{% iffy %}x{% endif %}").is_err());
    assert!(RinjaParser::parse(Rule::tmpl_unit, "{% set_a = 1 %}").is_err());
    assert_eq!(rendered("{% if(a == 43) %}x{% endif %}", DOC).unwrap(), "x");
    assert_eq!(rendered("{% for inx in b %}{{ inx }}{% endfor %}", DOC).unwrap(), "012");
}
