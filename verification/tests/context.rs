use agent_rotary::context::{Context, JsonValue};

fn text(s: &str) -> JsonValue {
    JsonValue::Text(s.to_string())
}

#[test]
fn read_after_write_gives_the_value() {
    let mut ctx = Context::new();
    assert!(ctx.get("k").is_none());
    ctx.set("k".to_string(), text("one"));
    assert_eq!(ctx.get("k"), Some(&text("one")));
    ctx.set("k".to_string(), text("two"));
    assert_eq!(ctx.get("k"), Some(&text("two")));
    assert_eq!(ctx.snapshot().len(), 1);
}

#[test]
fn writing_one_key_leaves_the_others() {
    let mut ctx = Context::new();
    ctx.set("a".to_string(), text("1"));
    ctx.set("b".to_string(), text("2"));
    assert_eq!(ctx.get("a"), Some(&text("1")));
    assert_eq!(ctx.get("b"), Some(&text("2")));
}

#[test]
fn get_str_gives_strings_as_themselves_and_the_rest_as_json() {
    let mut ctx = Context::new();
    ctx.set("s".to_string(), text("plain"));
    ctx.set("n".to_string(), JsonValue::Json("8.5".to_string()));
    ctx.set("z".to_string(), JsonValue::Null);
    assert_eq!(ctx.get_str("s"), Some("plain".to_string()));
    assert_eq!(ctx.get_str("n"), Some("8.5".to_string()));
    assert_eq!(ctx.get_str("z"), Some("null".to_string()));
    assert_eq!(ctx.get_str("missing"), None);
}

#[test]
fn merge_lets_the_other_context_win() {
    let mut a = Context::new();
    a.set("x".to_string(), text("a"));
    a.set("y".to_string(), text("a"));
    let mut b = Context::new();
    b.set("y".to_string(), text("b"));
    b.set("z".to_string(), text("b"));
    a.merge(b);
    assert_eq!(a.get("x"), Some(&text("a")));
    assert_eq!(a.get("y"), Some(&text("b")));
    assert_eq!(a.get("z"), Some(&text("b")));
    assert_eq!(a.snapshot().len(), 3);
}

#[test]
fn snapshot_keeps_first_insertion_order() {
    let mut ctx = Context::new();
    ctx.set("b".to_string(), text("1"));
    ctx.set("a".to_string(), text("2"));
    ctx.set("b".to_string(), text("3"));
    let keys: Vec<&str> = ctx.snapshot().entries().iter().map(|(k, _)| k.as_str()).collect();
    assert_eq!(keys, vec!["b", "a"]);
}

#[test]
fn json_value_text_and_null() {
    assert!(JsonValue::Null.is_null());
    assert!(!text("x").is_null());
    assert_eq!(JsonValue::Null.to_text(), "null");
    assert_eq!(JsonValue::Json("[1,2]".to_string()).to_text(), "[1,2]");
}
