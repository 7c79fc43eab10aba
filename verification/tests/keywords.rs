use assistant::keywords::Keywords;

fn strings(items: &[&str]) -> Vec<String> {
    items.iter().map(|s| s.to_string()).collect()
}

#[test]
fn display_string_keeps_order_and_duplicates() {
    let kw = Keywords::from(strings(&["a", "b", "b"]));
    assert_eq!(kw.as_string(), "a b b");
}

#[test]
fn stored_array_reloads_to_same_display_string() {
    let kw = Keywords::from(strings(&["a", "b"]));
    let stored: Vec<String> = kw.to_vec();
    let reloaded = Keywords::from(stored);
    assert_eq!(reloaded.as_string(), "a b");
}

#[test]
fn empty_set_renders_empty() {
    let kw = Keywords::from(Vec::new());
    assert_eq!(kw.as_string(), "");
}

#[test]
fn from_text_splits_on_single_spaces() {
    let kw = Keywords::from_text("x y");
    assert_eq!(kw.items(), &strings(&["x", "y"]));
    assert_eq!(kw.as_string(), "x y");
}

#[test]
fn consecutive_spaces_produce_empty_tokens() {
    let kw = Keywords::from_text("a  b");
    assert_eq!(kw.items(), &strings(&["a", "", "b"]));
    assert_eq!(kw.as_string(), "a  b");
}

#[test]
fn empty_text_produces_one_empty_token() {
    let kw = Keywords::from_text("");
    assert_eq!(kw.items(), &strings(&[""]));
    assert_eq!(kw.as_string(), "");
}

#[test]
fn no_trimming_happens() {
    let kw = Keywords::from_text(" lead");
    assert_eq!(kw.items(), &strings(&["", "lead"]));
    assert_eq!(kw.as_string(), " lead");
}
