use agent_rotary::context::{Context, JsonValue};
use agent_rotary::engine::template::{find_close, render};

fn text(s: &str) -> JsonValue {
    JsonValue::Text(s.to_string())
}

#[test]
fn renders_simple_value() {
    let mut ctx = Context::new();
    ctx.set("name".to_string(), text("world"));
    assert_eq!(render("hello {{name}}", &ctx).unwrap(), "hello world");
}

#[test]
fn renders_with_default() {
    let ctx = Context::new();
    assert_eq!(render("v={{missing|n/a}}", &ctx).unwrap(), "v=n/a");
}

#[test]
fn leaves_unknown_key_as_is() {
    let ctx = Context::new();
    assert_eq!(render("x={{unknown}}", &ctx).unwrap(), "x={{unknown}}");
}

#[test]
fn plain_text_renders_to_itself() {
    let ctx = Context::new();
    assert_eq!(render("no placeholders { here } at all", &ctx).unwrap(), "no placeholders { here } at all");
    assert_eq!(render("", &ctx).unwrap(), "");
    assert_eq!(render("héllo wörld ✓", &ctx).unwrap(), "héllo wörld ✓");
}

#[test]
fn key_and_default_are_trimmed() {
    let mut ctx = Context::new();
    ctx.set("plan.output".to_string(), text("the plan"));
    assert_eq!(render("[{{ plan.output }}]", &ctx).unwrap(), "[the plan]");
    assert_eq!(render("[{{ absent | fallback value\u{3000}}}]", &ctx).unwrap(), "[fallback value]");
}

#[test]
fn value_wins_over_default() {
    let mut ctx = Context::new();
    ctx.set("k".to_string(), text("v"));
    assert_eq!(render("{{k|d}}", &ctx).unwrap(), "v");
}

#[test]
fn unknown_placeholder_keeps_its_spaces() {
    let ctx = Context::new();
    assert_eq!(render("a {{ who }} b", &ctx).unwrap(), "a {{ who }} b");
}

#[test]
fn null_value_counts_as_missing() {
    let mut ctx = Context::new();
    ctx.set("n".to_string(), JsonValue::Null);
    assert_eq!(render("{{n|dflt}}", &ctx).unwrap(), "dflt");
    assert_eq!(render("{{n}}", &ctx).unwrap(), "{{n}}");
}

#[test]
fn non_string_values_render_as_json_text() {
    let mut ctx = Context::new();
    ctx.set("grade.score".to_string(), JsonValue::Json("7".to_string()));
    ctx.set("obj".to_string(), JsonValue::Json("{\"a\":[1,true]}".to_string()));
    assert_eq!(render("score={{grade.score}} obj={{obj}}", &ctx).unwrap(), "score=7 obj={\"a\":[1,true]}");
}

#[test]
fn several_placeholders_and_multibyte_text() {
    let mut ctx = Context::new();
    ctx.set("a".to_string(), text("α"));
    ctx.set("b".to_string(), text("β"));
    assert_eq!(render("é{{a}}-{{b}}é", &ctx).unwrap(), "éα-βé");
}

#[test]
fn unclosed_placeholder_is_copied_unchanged() {
    let ctx = Context::new();
    assert_eq!(render("ab{{c", &ctx).unwrap(), "ab{{c");
    assert_eq!(render("a{{b", &ctx).unwrap(), "a{{b");
    assert_eq!(render("{{x", &ctx).unwrap(), "{{x");
    assert_eq!(render("x{{a}", &ctx).unwrap(), "x{{a}");
}

#[test]
fn first_closing_braces_end_the_placeholder() {
    let mut ctx = Context::new();
    ctx.set("k".to_string(), text("V"));
    assert_eq!(render("{{k}}}", &ctx).unwrap(), "V}");
    assert_eq!(render("{{{k}}", &ctx).unwrap(), "{{{k}}");
}

#[test]
fn find_close_gives_a_byte_offset() {
    assert_eq!(find_close("abc}}"), Some(3));
    assert_eq!(find_close("é}}"), Some(2));
    assert_eq!(find_close("}x}"), None);
    assert_eq!(find_close(""), None);
    assert_eq!(find_close("a}}}"), Some(1));
}

#[test]
fn text_without_closing_braces_renders_to_itself() {
    let mut ctx = Context::new();
    ctx.set("a".to_string(), text("A"));
    assert_eq!(render("{{a {{a} {", &ctx).unwrap(), "{{a {{a} {");
    assert_eq!(render("{{{{", &ctx).unwrap(), "{{{{");
}
