use parse_js::utility::get_definition;

#[test]
fn definition_runs_to_the_closing_brace() {
    let content = "var a = 1;\nvar Foo = function () { return { x: 1 }; };\nvar b = 2;";
    let found = get_definition("var Foo = function () {", content);
    assert_eq!(found, Some("var Foo = function () { return { x: 1 }; }"));
}

#[test]
fn definition_starts_at_the_first_occurrence() {
    let content = "f() {a} f() {b}";
    assert_eq!(get_definition("f() {", content), Some("f() {a}"));
}

#[test]
fn definition_is_the_shortest_balanced_text() {
    let content = "x {{}{}} }}";
    assert_eq!(get_definition("x {", content), Some("x {{}{}}"));
}

#[test]
fn anchor_not_found() {
    assert_eq!(get_definition("var Bar = function () {", "var Foo = function () {}"), None);
    assert_eq!(get_definition("abc {", ""), None);
}

#[test]
fn anchor_longer_than_content() {
    assert_eq!(get_definition("abcdef {", "abc"), None);
}

#[test]
fn unclosed_block_runs_to_the_end() {
    let content = "head f() { if (x) { y(); }";
    assert_eq!(get_definition("f() {", content), Some("f() { if (x) { y(); }"));
}

#[test]
fn anchor_at_the_very_end() {
    assert_eq!(get_definition("f() {", "f() {"), Some("f() {"));
}

#[test]
fn immediate_close() {
    assert_eq!(get_definition("f() {", "f() {}rest"), Some("f() {}"));
}

#[test]
fn empty_anchor_scans_from_the_start() {
    assert_eq!(get_definition("", "ab}cd"), Some("ab}"));
}

#[test]
fn braces_in_literals_are_counted() {
    let content = "f() { s = \"}\"; }";
    assert_eq!(get_definition("f() {", content), Some("f() { s = \"}"));
}

#[test]
fn characters_outside_ascii_are_one_step_each() {
    let content = "é f() { \"ü{ö}\" } ä";
    assert_eq!(get_definition("f() {", content), Some("f() { \"ü{ö}\" }"));
}

#[test]
fn scanned_definition_is_balanced() {
    let content = "var C = function () { a { b } c { d { e } } } tail }";
    let found = get_definition("var C = function () {", content).unwrap();
    let opens = found.chars().filter(|c| *c == '{').count();
    let closes = found.chars().filter(|c| *c == '}').count();
    assert_eq!(opens, closes);
    assert_eq!(found, "var C = function () { a { b } c { d { e } } }");
}
