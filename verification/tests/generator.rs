use parse_js::deserialize::{JavascriptContentType, JavascriptDefinition};
use parse_js::emit::render;
use parse_js::extract::{extract, Drift};
use parse_js::gen_class::RustClass;
use parse_js::generate::{class_name, name_from, Artifact, RustCodeGenerator};
use parse_js::pattern::Captured;

const CARD: &str = "var CardName = function () { this.value = 0;\n CardName.prototype.getValue = function () { return this.value; };\n }";

fn definition(start: &str, type_: JavascriptContentType) -> JavascriptDefinition {
    JavascriptDefinition { start: start.to_string(), type_ }
}

#[test]
fn class_named_by_variable() {
    assert_eq!(class_name("var CardName = function () {"), Some("CardName".to_string()));
    assert_eq!(class_name("  var Deck_2 = function (a) {"), Some("Deck_2".to_string()));
}

#[test]
fn class_named_by_function() {
    assert_eq!(class_name("function Card(name, cost) {"), Some("Card".to_string()));
}

#[test]
fn variable_form_wins() {
    assert_eq!(class_name("function A() { var B = function () {"), Some("B".to_string()));
}

#[test]
fn anchor_without_a_name() {
    assert_eq!(class_name("function () {"), None);
    assert_eq!(class_name("var x = 1; {"), None);
    assert_eq!(class_name(""), None);
}

#[test]
fn name_from_a_match() {
    let found = Captured {
        before: "  ".to_string(),
        after: " () {".to_string(),
        groups: vec![Some("var Card = function".to_string()), Some("Card".to_string())],
    };
    assert_eq!(name_from(&found, "var ", " = function"), Some("Card".to_string()));
    assert_eq!(name_from(&found, "let ", " = function"), None);
    assert_eq!(name_from(&found, "var ", " = function ("), None);
    let nameless = Captured {
        before: String::new(),
        after: String::new(),
        groups: vec![Some("var Card = function".to_string()), None],
    };
    assert_eq!(name_from(&nameless, "var ", " = function"), None);
}

#[test]
fn artifact_stands_under_the_lower_case_name() {
    let class = RustClass::new("CardName");
    assert_eq!(class.name(), "CardName");
    assert_eq!(class.filename(), "cardname");
    assert_eq!(class.path(), "rustominion/src/rustominion/generated/cardname.rs");
}

#[test]
fn lower_case_beyond_ascii() {
    let class = RustClass::new("ÄrgerKarte");
    assert_eq!(class.filename(), "ärgerkarte");
    assert_eq!(class.path(), "rustominion/src/rustominion/generated/ärgerkarte.rs");
}

#[test]
fn class_is_drafted_where_nothing_exists() {
    let mut class = RustClass::new("CardName");
    let expected = render(&extract(CARD, "CardName").unwrap(), "2.0");
    assert_eq!(class.generate(CARD, "2.0", None), Ok(Some(expected)));
    assert_eq!(class.name(), "CardName");
}

#[test]
fn finished_artifact_is_kept() {
    let mut class = RustClass::new("CardName");
    let finished = "// version: 2.0\nstruct CardName { value: u8 }\n";
    assert!(class.is_existing_file_ok(Some(finished), "2.0"));
    assert_eq!(class.generate(CARD, "2.0", Some(finished)), Ok(None));
    assert!(!class.is_existing_file_ok(Some(finished), "2.1"));
    let expected = render(&extract(CARD, "CardName").unwrap(), "2.1");
    assert_eq!(class.generate(CARD, "2.1", Some(finished)), Ok(Some(expected)));
}

#[test]
fn finished_artifact_is_kept_even_where_the_source_drifted() {
    let mut class = RustClass::new("CardName");
    let finished = "// version: 2.0\nstruct CardName { value: u8 }\n";
    assert_eq!(class.generate("nothing of the kind", "2.0", Some(finished)), Ok(None));
    assert_eq!(
        class.generate("nothing of the kind", "2.0", None),
        Err(Drift::NoConstructor)
    );
}

#[test]
fn unfinished_artifact_is_drafted_again_with_the_same_text() {
    let mut class = RustClass::new("CardName");
    let first = class.generate(CARD, "2.0", None).unwrap().unwrap();
    let second = class.generate(CARD, "2.0", Some(first.as_str())).unwrap().unwrap();
    assert_eq!(first, second);
}

#[test]
fn name_mismatch_stops_the_class() {
    let mut class = RustClass::new("Deck");
    assert_eq!(class.generate(CARD, "2.0", None), Err(Drift::NameMismatch));
}

#[test]
fn generator_drafts_classes_only() {
    let mut generator = RustCodeGenerator::new("4".to_string());
    assert_eq!(generator.version(), "4");
    let class = definition("var CardName = function () {", JavascriptContentType::Class);
    let expected = render(&extract(CARD, "CardName").unwrap(), "4");
    assert_eq!(
        generator.generate(&class, CARD, None),
        Ok(Some(Artifact {
            path: "rustominion/src/rustominion/generated/cardname.rs".to_string(),
            text: expected,
        }))
    );
    let map = definition("var CardName = function () {", JavascriptContentType::MapEnumToStatic);
    assert_eq!(generator.generate(&map, CARD, None), Ok(None));
    let function = definition("var CardName = function () {", JavascriptContentType::Function);
    assert_eq!(generator.generate(&function, CARD, None), Ok(None));
    assert_eq!(generator.classes().len(), 1);
    assert_eq!(generator.classes()[0].name(), "CardName");
    assert_eq!(generator.index(), "pub mod cardname;\n");
}

#[test]
fn drift_leaves_the_generator_as_it_was() {
    let mut generator = RustCodeGenerator::new("4".to_string());
    let nameless = definition("function () {", JavascriptContentType::Class);
    assert_eq!(generator.generate(&nameless, CARD, None), Err(Drift::NoClassName));
    let other = definition("var Deck = function () {", JavascriptContentType::Class);
    assert_eq!(generator.generate(&other, CARD, None), Err(Drift::NameMismatch));
    assert_eq!(generator.classes().len(), 0);
    assert_eq!(generator.index(), "");
}

#[test]
fn kept_class_is_listed_in_the_index() {
    let mut generator = RustCodeGenerator::new("4".to_string());
    let class = definition("var CardName = function () {", JavascriptContentType::Class);
    let finished = "// version: 4\nstruct CardName;\n";
    assert_eq!(generator.generate(&class, CARD, Some(finished)), Ok(None));
    let second = definition("function Deck(cards) {", JavascriptContentType::Class);
    let made = generator.generate(&second, "function Deck(cards) { this.cards = cards;\n }", None);
    assert!(made.unwrap().is_some());
    assert_eq!(generator.index(), "pub mod cardname;\npub mod deck;\n");
}

#[test]
fn wanted_path_of_a_definition() {
    let class = definition("var CardName = function () {", JavascriptContentType::Class);
    assert_eq!(
        RustCodeGenerator::wanted_path(&class),
        Some("rustominion/src/rustominion/generated/cardname.rs".to_string())
    );
    let function = definition("var CardName = function () {", JavascriptContentType::Function);
    assert_eq!(RustCodeGenerator::wanted_path(&function), None);
    let nameless = definition("{", JavascriptContentType::Class);
    assert_eq!(RustCodeGenerator::wanted_path(&nameless), None);
}
