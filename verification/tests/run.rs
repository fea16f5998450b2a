use parse_js::deserialize::{
    JavascriptContentType, JavascriptDefinition, JavascriptFileContents, JavascriptMap,
};
use parse_js::emit::render;
use parse_js::extract::{extract, Drift};
use parse_js::generate::Artifact;
use parse_js::latest::find_latest_map;
use parse_js::unpack::{unpack_map_js, DriftAt, UnpackError};

fn names(list: &[&str]) -> Vec<String> {
    list.iter().map(|n| n.to_string()).collect()
}

#[test]
fn newest_bundle_by_plain_text_order() {
    let found = find_latest_map(&names(&["game-1.2.3.map.js", "game-1.10.0.map.js", "notes.txt"]));
    assert_eq!(found, Some(("1.2.3".to_string(), "data/game-1.2.3.map.js".to_string())));
    let found = find_latest_map(&names(&["a-10.map.js", "a-9.map.js", "a-8.map.js"]));
    assert_eq!(found, Some(("9".to_string(), "data/a-9.map.js".to_string())));
}

#[test]
fn longer_token_follows_its_prefix() {
    let found = find_latest_map(&names(&["a-1.2.map.js", "a-1.2.1.map.js", "a-1.map.js"]));
    assert_eq!(found, Some(("1.2.1".to_string(), "data/a-1.2.1.map.js".to_string())));
}

#[test]
fn first_of_equal_tokens_stays() {
    let found = find_latest_map(&names(&["x-1.map.js", "y-1.map.js"]));
    assert_eq!(found, Some(("1".to_string(), "data/x-1.map.js".to_string())));
}

#[test]
fn no_bundle_at_hand() {
    assert_eq!(find_latest_map(&names(&[])), None);
    assert_eq!(find_latest_map(&names(&["a-1.map", "b-2.js", "map.js", "c-3.map.js.txt"])), None);
}

#[test]
fn token_is_what_follows_the_last_hyphen() {
    let found = find_latest_map(&names(&["dominion-webclient-1.5.1.2.map.js"]));
    assert_eq!(
        found,
        Some(("1.5.1.2".to_string(), "data/dominion-webclient-1.5.1.2.map.js".to_string()))
    );
    let found = find_latest_map(&names(&["bundle.map.js"]));
    assert_eq!(found, Some(("bundle".to_string(), "data/bundle.map.js".to_string())));
    let found = find_latest_map(&names(&["a-.map.js"]));
    assert_eq!(found, Some(("".to_string(), "data/a-.map.js".to_string())));
    let found = find_latest_map(&names(&[".map.js"]));
    assert_eq!(found, Some(("".to_string(), "data/.map.js".to_string())));
}

#[test]
fn repeated_suffix_is_taken_off_whole() {
    let found = find_latest_map(&names(&["a-2.map.js.map.js", "a-1.map.js"]));
    assert_eq!(found, Some(("2".to_string(), "data/a-2.map.js.map.js".to_string())));
}

const CARD: &str = "var CardName = function () { this.value = 0;\n CardName.prototype.getValue = function () { return this.value; };\n }";

const DECK: &str = "function Deck(cards) {\n    this.cards = cards;\n\n    this.size = function () {\n        return this.cards.length;\n    };\n}";

fn definition(start: &str, type_: JavascriptContentType) -> JavascriptDefinition {
    JavascriptDefinition { start: start.to_string(), type_ }
}

fn bundle() -> JavascriptMap {
    JavascriptMap {
        sources: names(&["src/unlisted.js", "src/cards.js", "src/deck.js"]),
        sources_content: vec![
            "var Unlisted = function () { };".to_string(),
            format!("'use strict';\n{}\nvar helper = 1;\n", CARD),
            format!("// deck\n{}\nexports.Deck = Deck;\n", DECK),
        ],
    }
}

fn catalog() -> JavascriptFileContents {
    let mut catalog = JavascriptFileContents::new();
    catalog.insert(
        "src/deck.js".to_string(),
        vec![definition("function Deck(cards) {", JavascriptContentType::Class)],
    );
    catalog.insert(
        "src/cards.js".to_string(),
        vec![
            definition("var helper", JavascriptContentType::Function),
            definition("var CardName = function () {", JavascriptContentType::Class),
            definition("var CardName = function () {", JavascriptContentType::MapEnumToStatic),
        ],
    );
    catalog.insert("src/absent.js".to_string(), vec![definition("x {", JavascriptContentType::Class)]);
    catalog
}

fn expected_artifacts(version: &str) -> Vec<Artifact> {
    vec![
        Artifact {
            path: "rustominion/src/rustominion/generated/cardname.rs".to_string(),
            text: render(&extract(CARD, "CardName").unwrap(), version),
        },
        Artifact {
            path: "rustominion/src/rustominion/generated/deck.rs".to_string(),
            text: render(&extract(DECK, "Deck").unwrap(), version),
        },
    ]
}

#[test]
fn first_run_drafts_every_class_in_bundle_order() {
    let done = unpack_map_js(&bundle(), &catalog(), "1.0", &vec![]).ok().unwrap();
    assert_eq!(done.artifacts, expected_artifacts("1.0"));
    assert_eq!(done.generator.index(), "pub mod cardname;\npub mod deck;\n");
    assert_eq!(done.generator.version(), "1.0");
}

fn finish(artifact: &Artifact) -> Artifact {
    let text: String = artifact
        .text
        .lines()
        .filter(|line| !line.contains("TODO"))
        .map(|line| format!("{}\n", line))
        .collect();
    Artifact { path: artifact.path.clone(), text }
}

#[test]
fn second_run_keeps_finished_work() {
    let first = unpack_map_js(&bundle(), &catalog(), "1.0", &vec![]).ok().unwrap();
    let on_disk = vec![finish(&first.artifacts[0]), first.artifacts[1].clone()];
    let second = unpack_map_js(&bundle(), &catalog(), "1.0", &on_disk).ok().unwrap();
    assert_eq!(second.artifacts, vec![first.artifacts[1].clone()]);
    assert_eq!(second.generator.index(), "pub mod cardname;\npub mod deck;\n");
    let all_finished = vec![finish(&first.artifacts[0]), finish(&first.artifacts[1])];
    let third = unpack_map_js(&bundle(), &catalog(), "1.0", &all_finished).ok().unwrap();
    assert_eq!(third.artifacts, Vec::<Artifact>::new());
    assert_eq!(third.generator.index(), "pub mod cardname;\npub mod deck;\n");
}

#[test]
fn new_version_drafts_finished_work_again() {
    let first = unpack_map_js(&bundle(), &catalog(), "1.0", &vec![]).ok().unwrap();
    let all_finished = vec![finish(&first.artifacts[0]), finish(&first.artifacts[1])];
    let next = unpack_map_js(&bundle(), &catalog(), "1.1", &all_finished).ok().unwrap();
    assert_eq!(next.artifacts, expected_artifacts("1.1"));
    let finished_again = vec![finish(&next.artifacts[0]), finish(&next.artifacts[1])];
    let after = unpack_map_js(&bundle(), &catalog(), "1.1", &finished_again).ok().unwrap();
    assert_eq!(after.artifacts, Vec::<Artifact>::new());
}

#[test]
fn bundle_with_a_missing_content_is_refused() {
    let mut map = bundle();
    map.sources_content.pop();
    assert_eq!(
        unpack_map_js(&map, &catalog(), "1.0", &vec![]).err(),
        Some(UnpackError::MalformedInput)
    );
    let mut map = bundle();
    map.sources.pop();
    assert_eq!(
        unpack_map_js(&map, &JavascriptFileContents::new(), "1.0", &vec![]).err(),
        Some(UnpackError::MalformedInput)
    );
}

#[test]
fn absent_anchor_gives_the_run_up() {
    let mut catalog = catalog();
    catalog.insert(
        "src/deck.js".to_string(),
        vec![definition("function Pile(cards) {", JavascriptContentType::Class)],
    );
    assert_eq!(
        unpack_map_js(&bundle(), &catalog, "1.0", &vec![]).err(),
        Some(UnpackError::CatalogDrift(DriftAt {
            source: 2,
            definition: 0,
            drift: Drift::AnchorNotFound,
        }))
    );
}

#[test]
fn drift_names_the_definition() {
    let mut catalog = catalog();
    catalog.insert(
        "src/cards.js".to_string(),
        vec![
            definition("var helper", JavascriptContentType::Function),
            definition("var CardName = function () {", JavascriptContentType::Class),
            definition("var Missing = function () {", JavascriptContentType::MapEnumToStatic),
        ],
    );
    assert_eq!(
        unpack_map_js(&bundle(), &catalog, "1.0", &vec![]).err(),
        Some(UnpackError::CatalogDrift(DriftAt {
            source: 1,
            definition: 2,
            drift: Drift::AnchorNotFound,
        }))
    );
}

#[test]
fn absent_anchor_of_any_kind_gives_the_run_up() {
    let mut catalog = JavascriptFileContents::new();
    catalog.insert(
        "src/deck.js".to_string(),
        vec![definition("no such text", JavascriptContentType::Function)],
    );
    assert_eq!(
        unpack_map_js(&bundle(), &catalog, "1.0", &vec![]).err(),
        Some(UnpackError::CatalogDrift(DriftAt {
            source: 2,
            definition: 0,
            drift: Drift::AnchorNotFound,
        }))
    );
}

#[test]
fn anchor_without_class_name_gives_the_run_up() {
    let mut catalog = JavascriptFileContents::new();
    catalog.insert(
        "src/deck.js".to_string(),
        vec![definition("size = function () {", JavascriptContentType::Class)],
    );
    assert_eq!(
        unpack_map_js(&bundle(), &catalog, "1.0", &vec![]).err(),
        Some(UnpackError::CatalogDrift(DriftAt {
            source: 2,
            definition: 0,
            drift: Drift::NoClassName,
        }))
    );
}

#[test]
fn block_without_constructor_gives_the_run_up() {
    let map = JavascriptMap {
        sources: names(&["a.js"]),
        sources_content: vec!["var Thing = function(x) { return x; }".to_string()],
    };
    let mut catalog = JavascriptFileContents::new();
    catalog.insert(
        "a.js".to_string(),
        vec![definition("var Thing = function", JavascriptContentType::Class)],
    );
    assert_eq!(
        unpack_map_js(&map, &catalog, "1.0", &vec![]).err(),
        Some(UnpackError::CatalogDrift(DriftAt {
            source: 0,
            definition: 0,
            drift: Drift::NoConstructor,
        }))
    );
}

#[test]
fn class_under_another_name_gives_the_run_up() {
    let map = JavascriptMap {
        sources: names(&["a.js"]),
        sources_content: vec!["var Outer = function () {\n function Inner(a) { }\n}".to_string()],
    };
    let mut catalog = JavascriptFileContents::new();
    catalog.insert(
        "a.js".to_string(),
        vec![definition("var Outer = function () {", JavascriptContentType::Class)],
    );
    assert!(unpack_map_js(&map, &catalog, "1.0", &vec![]).is_ok());
    let map = JavascriptMap {
        sources: names(&["a.js"]),
        sources_content: vec!["var Outer = (function () {\n function Inner(a) { }\n}".to_string()],
    };
    let mut catalog = JavascriptFileContents::new();
    catalog.insert(
        "a.js".to_string(),
        vec![definition("var Outer = (function () {", JavascriptContentType::Class)],
    );
    assert_eq!(
        unpack_map_js(&map, &catalog, "1.0", &vec![]).err(),
        Some(UnpackError::CatalogDrift(DriftAt {
            source: 0,
            definition: 0,
            drift: Drift::NoClassName,
        }))
    );
}

#[test]
fn finished_artifact_hides_drift() {
    let map = JavascriptMap {
        sources: names(&["a.js"]),
        sources_content: vec!["var Thing = function(x) { return x; }".to_string()],
    };
    let mut catalog = JavascriptFileContents::new();
    catalog.insert(
        "a.js".to_string(),
        vec![definition("var Thing = function", JavascriptContentType::Class)],
    );
    let on_disk = vec![Artifact {
        path: "rustominion/src/rustominion/generated/thing.rs".to_string(),
        text: "// version: 1.0\nstruct Thing;\n".to_string(),
    }];
    let done = unpack_map_js(&map, &catalog, "1.0", &on_disk).ok().unwrap();
    assert_eq!(done.artifacts, Vec::<Artifact>::new());
    assert_eq!(done.generator.index(), "pub mod thing;\n");
}

#[test]
fn empty_bundle_gives_an_empty_index() {
    let map = JavascriptMap { sources: vec![], sources_content: vec![] };
    let done = unpack_map_js(&map, &catalog(), "1.0", &vec![]).ok().unwrap();
    assert_eq!(done.artifacts, Vec::<Artifact>::new());
    assert_eq!(done.generator.index(), "");
}

#[test]
fn catalog_lists_each_file_once() {
    let mut catalog = JavascriptFileContents::new();
    assert_eq!(catalog.len(), 0);
    assert_eq!(catalog.get("a.js"), None);
    let first = vec![definition("a {", JavascriptContentType::Class)];
    let second = vec![
        definition("b {", JavascriptContentType::Function),
        definition("c {", JavascriptContentType::MapEnumToStatic),
    ];
    assert!(!catalog.insert("a.js".to_string(), first.clone()));
    assert!(!catalog.insert("b.js".to_string(), second.clone()));
    assert_eq!(catalog.len(), 2);
    assert_eq!(catalog.get("a.js"), Some(&first));
    assert_eq!(catalog.get("b.js"), Some(&second));
    assert_eq!(catalog.get("c.js"), None);
    assert!(catalog.insert("a.js".to_string(), second.clone()));
    assert_eq!(catalog.len(), 2);
    assert_eq!(catalog.get("a.js"), Some(&second));
    assert_eq!(catalog.get("b.js"), Some(&second));
}
