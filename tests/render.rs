use tiny_template::{render, render_strict, Bindings, RenderError, Value};

fn bind(pairs: Vec<(&str, Value)>) -> Bindings {
    let mut b = Bindings::new();
    for (k, v) in pairs {
        b.insert(k, v);
    }
    b
}

fn ok(s: &str) -> Result<String, RenderError> {
    Ok(s.to_string())
}

#[test]
fn plain_text_is_unchanged() {
    let b = bind(vec![("x", Value::Integer(1))]);
    let t = "Hello, world! } %} { # - plain text\nsecond line";
    assert_eq!(render(t, &b), ok(t));
    assert_eq!(render("", &b), ok(""));
}

#[test]
fn plain_text_render_is_idempotent() {
    let b = Bindings::new();
    let t = "nothing to see { here }";
    let once = render(t, &b).unwrap();
    assert_eq!(render(&once, &b), ok(&once));
    assert_eq!(once, t);
}

#[test]
fn interpolates_integer() {
    let b = bind(vec![("x", Value::Integer(42))]);
    assert_eq!(render("{{x}}", &b), ok("42"));
}

#[test]
fn interpolates_negative_and_extreme_integers() {
    let b = bind(vec![("a", Value::Integer(-7)), ("b", Value::Integer(i64::MIN)), ("c", Value::Integer(0))]);
    assert_eq!(render("{{a}} {{b}} {{c}}", &b), ok("-7 -9223372036854775808 0"));
    let m = bind(vec![("x", Value::Integer(i64::MAX))]);
    assert_eq!(render("{{x}}", &m), ok("9223372036854775807"));
}

#[test]
fn interpolates_booleans() {
    let t = bind(vec![("x", Value::Boolean(true))]);
    let f = bind(vec![("x", Value::Boolean(false))]);
    assert_eq!(render("{{x}}", &t), ok("true"));
    assert_eq!(render("{{x}}", &f), ok("false"));
}

#[test]
fn interpolates_text_verbatim() {
    let b = bind(vec![("x", Value::Text("  raw text é ".to_string()))]);
    assert_eq!(render("{{x}}", &b), ok("  raw text é "));
}

#[test]
fn interpolation_trims_name() {
    let b = bind(vec![("hello", Value::Text("internet".to_string()))]);
    assert_eq!(render("Hi {{  hello \t}}!", &b), ok("Hi internet!"));
    assert_eq!(render("{{\u{3000}hello\n}}", &b), ok("internet"));
}

#[test]
fn interpolation_closes_at_first_marker() {
    let b = bind(vec![("a", Value::Integer(1))]);
    assert_eq!(render("{{a}}}}", &b), ok("1}}"));
}

#[test]
fn repeat_zero_times_is_empty() {
    let b = Bindings::new();
    assert_eq!(render("{% repeat 0 times %}ABC{% endrepeat %}", &b), ok(""));
}

#[test]
fn repeat_three_times() {
    let b = Bindings::new();
    assert_eq!(render("{% repeat 3 times %}ab{% endrepeat %}", &b), ok("ababab"));
}

#[test]
fn repeat_trims_body_once() {
    let b = Bindings::new();
    assert_eq!(render("[{% repeat 2 times %}  a b \n{% endrepeat %}]", &b), ok("[a ba b]"));
}

#[test]
fn repeat_contains_interpolation() {
    let b = bind(vec![("n", Value::Integer(5))]);
    assert_eq!(render("{% repeat 2 times %}{{n}},{% endrepeat %}", &b), ok("5,5,"));
}

#[test]
fn repeat_blocks_do_not_nest() {
    let b = Bindings::new();
    assert_eq!(
        render("{% repeat 2 times %}a{% repeat 2 times %}b{% endrepeat %}c{% endrepeat %}", &b),
        ok("a{% repeat 2 times %}ba{% repeat 2 times %}bc{% endrepeat %}")
    );
}

#[test]
fn repeat_count_malformed() {
    let b = Bindings::new();
    assert_eq!(render("{% repeat x times %}a{% endrepeat %}", &b), Err(RenderError::MalformedRepeatCount));
    assert_eq!(render("{% repeat  times %}a{% endrepeat %}", &b), Err(RenderError::MalformedRepeatCount));
    assert_eq!(render("{% repeat 3 time %}a{% endrepeat %}", &b), Err(RenderError::MalformedRepeatCount));
    assert_eq!(
        render("{% repeat 99999999999999999999999 times %}a{% endrepeat %}", &b),
        Err(RenderError::MalformedRepeatCount)
    );
}

#[test]
fn repeat_unterminated() {
    let b = Bindings::new();
    assert_eq!(render("{% repeat 2 times %}abc", &b), Err(RenderError::UnterminatedDirective));
}

#[test]
fn if_else_true_and_false() {
    let t = bind(vec![("allowed", Value::Boolean(true))]);
    let f = bind(vec![("allowed", Value::Boolean(false))]);
    let tpl = "{% if allowed %}YES{% else %}NO{% endif %}";
    assert_eq!(render(tpl, &t), ok("YES"));
    assert_eq!(render(tpl, &f), ok("NO"));
}

#[test]
fn if_without_else_false_is_empty() {
    let f = bind(vec![("allowed", Value::Boolean(false))]);
    let t = bind(vec![("allowed", Value::Boolean(true))]);
    assert_eq!(render("{% if allowed %}YES{% endif %}", &f), ok(""));
    assert_eq!(render("<{% if allowed %} YES {% endif %}>", &t), ok("<YES>"));
}

#[test]
fn if_branches_are_trimmed() {
    let f = bind(vec![("on", Value::Boolean(false))]);
    assert_eq!(render("a{% if  on %}\n x \n{% else %}\n y \n{% endif %}b", &f), ok("ayb"));
}

#[test]
fn if_on_non_boolean_renders_marker() {
    let b = bind(vec![("n", Value::Integer(3))]);
    assert_eq!(render("<{% if n %}A{% else %}B{% endif %}>", &b), ok("<ERROR PARSING KEY>"));
}

#[test]
fn strict_if_on_non_boolean_fails() {
    let b = bind(vec![("n", Value::Text("true".to_string()))]);
    assert_eq!(render_strict("{% if n %}A{% else %}B{% endif %}", &b), Err(RenderError::TypeMismatch));
    let ok_b = bind(vec![("n", Value::Boolean(true))]);
    assert_eq!(render_strict("{% if n %}A{% else %}B{% endif %}", &ok_b), ok("A"));
}

#[test]
fn if_unbound_fails() {
    let b = Bindings::new();
    assert_eq!(render("{% if gone %}A{% endif %}", &b), Err(RenderError::UnboundVariable));
}

#[test]
fn if_unterminated() {
    let b = bind(vec![("a", Value::Boolean(true))]);
    assert_eq!(render("{% if a %}A", &b), Err(RenderError::UnterminatedDirective));
    assert_eq!(render("{% if a", &b), Err(RenderError::UnterminatedDirective));
}

#[test]
fn repeat_may_hold_conditional() {
    let b = bind(vec![("on", Value::Boolean(true))]);
    assert_eq!(
        render("{% repeat 2 times %}{% if on %}Y{% endif %}{% endrepeat %}", &b),
        ok("YY")
    );
}

#[test]
fn comment_markers_are_rewritten() {
    let b = Bindings::new();
    assert_eq!(render("{# secret #}", &b), ok("<!-- secret -->"));
    assert_eq!(render("a{#b#}c#}", &b), ok("a<!--b-->c-->"));
}

#[test]
fn comment_second_render_does_not_rewrite_again() {
    let b = Bindings::new();
    let once = render("x {# note #} y", &b).unwrap();
    assert_eq!(once, "x <!-- note --> y");
    assert_eq!(render(&once, &b), ok(&once));
    assert_eq!(render("{#}", &b), ok("<!--}"));
}

#[test]
fn missing_variable_fails() {
    let b = Bindings::new();
    assert_eq!(render("{{missing}}", &b), Err(RenderError::UnboundVariable));
    let c = bind(vec![("a", Value::Integer(1))]);
    assert_eq!(render("{{a}} then {{missing}}", &c), Err(RenderError::UnboundVariable));
}

#[test]
fn interpolation_unterminated() {
    let b = bind(vec![("a", Value::Integer(1))]);
    assert_eq!(render("{{a", &b), Err(RenderError::UnterminatedDirective));
}

#[test]
fn full_page() {
    let b = bind(vec![
        ("hello", Value::Text("internet".to_string())),
        ("allowed", Value::Boolean(true)),
    ]);
    let t = "<h1>Hello {{ hello }}</h1>\n{# header #}\n{% repeat 2 times %}<br>{% endrepeat %}\n{% if allowed %}\n  <p>ok</p>\n{% else %}\n  <p>no</p>\n{% endif %}";
    assert_eq!(
        render(t, &b),
        ok("<h1>Hello internet</h1>\n<!-- header -->\n<br><br>\n<p>ok</p>")
    );
}

#[test]
fn bindings_insert_replaces() {
    let mut b = Bindings::new();
    assert_eq!(b.get("k"), None);
    b.insert("k", Value::Integer(1));
    b.insert("j", Value::Boolean(false));
    b.insert("k", Value::Text("two".to_string()));
    assert_eq!(b.get("k"), Some(&Value::Text("two".to_string())));
    assert_eq!(b.get("j"), Some(&Value::Boolean(false)));
    assert_eq!(render("{{k}}", &b), ok("two"));
}

#[test]
fn value_display_forms() {
    assert_eq!(Value::Integer(-120).to_text(), "-120");
    assert_eq!(Value::Integer(7).to_text(), "7");
    assert_eq!(Value::Boolean(true).to_text(), "true");
    assert_eq!(Value::Boolean(false).to_text(), "false");
    assert_eq!(Value::Text("{# x #}".to_string()).to_text(), "{# x #}");
}
