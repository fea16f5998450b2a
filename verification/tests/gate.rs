use parse_js::gate::{complete, decide, Decision};

#[test]
fn absent_artifact_is_regenerated() {
    assert_eq!(decide(None, "1.2.3"), Decision::Regenerate);
}

#[test]
fn empty_artifact_is_regenerated() {
    assert_eq!(decide(Some(""), "1.2.3"), Decision::Regenerate);
    assert_eq!(decide(Some("\n"), "1.2.3"), Decision::Regenerate);
}

#[test]
fn complete_artifact_is_kept() {
    let text = "// version: 1.2.3\nstruct A {}\nimpl A {}\n";
    assert_eq!(decide(Some(text), "1.2.3"), Decision::Skip);
    assert!(complete(text, "1.2.3"));
}

#[test]
fn stamp_line_alone_is_complete() {
    assert_eq!(decide(Some("// version: 7"), "7"), Decision::Skip);
    assert_eq!(decide(Some("// version: 7\n"), "7"), Decision::Skip);
}

#[test]
fn other_version_is_regenerated() {
    let text = "// version: 1.2.3\nstruct A {}\n";
    assert_eq!(decide(Some(text), "1.2.4"), Decision::Regenerate);
    assert_eq!(decide(Some(text), "1.2"), Decision::Regenerate);
    assert_eq!(decide(Some(text), "1.2.33"), Decision::Regenerate);
}

#[test]
fn marker_behind_the_stamp_is_regenerated() {
    let text = "// version: 1.2.3\nstruct A {\n    a: u8, // TODO: initialized in constructor from a\n}\n";
    assert_eq!(decide(Some(text), "1.2.3"), Decision::Regenerate);
    assert_eq!(decide(Some("// version: 1\nTODO"), "1"), Decision::Regenerate);
    assert_eq!(decide(Some("// version: 1\nxTODOx\n"), "1"), Decision::Regenerate);
}

#[test]
fn marker_must_be_whole() {
    assert_eq!(decide(Some("// version: 1\nTOD\nO todo TO DO"), "1"), Decision::Skip);
}

#[test]
fn marker_on_the_stamp_line_does_not_count() {
    assert_eq!(decide(Some("// version: TODO\nfn a() {}\n"), "TODO"), Decision::Skip);
}

#[test]
fn first_line_is_compared_exactly() {
    assert_eq!(decide(Some("// version: 1 \nx"), "1"), Decision::Regenerate);
    assert_eq!(decide(Some(" // version: 1\nx"), "1"), Decision::Regenerate);
    assert_eq!(decide(Some("//version: 1\nx"), "1"), Decision::Regenerate);
    assert_eq!(decide(Some("\n// version: 1\nx"), "1"), Decision::Regenerate);
}

#[test]
fn carriage_return_ends_the_line_too() {
    assert_eq!(decide(Some("// version: 1\r\nfn a() {}\r\n"), "1"), Decision::Skip);
    assert_eq!(decide(Some("// version: 1\r"), "1"), Decision::Regenerate);
}

#[test]
fn new_version_then_finished_work() {
    let finished_old = "// version: 1\nstruct A;\n";
    assert_eq!(decide(Some(finished_old), "1"), Decision::Skip);
    assert_eq!(decide(Some(finished_old), "2"), Decision::Regenerate);
    let draft_new = "// version: 2\nstruct A; // TODO: check\n";
    assert_eq!(decide(Some(draft_new), "2"), Decision::Regenerate);
    let finished_new = "// version: 2\nstruct A;\n";
    assert_eq!(decide(Some(finished_new), "2"), Decision::Skip);
}
