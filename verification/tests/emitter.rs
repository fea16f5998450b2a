use parse_js::emit::render;
use parse_js::extract::{extract, JAttribute, JClass, JMethod};
use parse_js::gate::{decide, Decision};

fn attribute(name: &str, value: &str) -> JAttribute {
    JAttribute { attribute: name.to_string(), value: value.to_string() }
}

fn card() -> JClass {
    JClass {
        name: "Card".to_string(),
        constructor: JMethod {
            name: "Card".to_string(),
            args: vec!["name".to_string(), "card_cost".to_string()],
            body: "this.name = name;\nthis.cost = cardCost;".to_string(),
        },
        attributes: vec![
            attribute("name", "name"),
            attribute("cost", "cardCost"),
            attribute("count", "0"),
        ],
        methods: vec![JMethod {
            name: "get_cost".to_string(),
            args: vec![],
            body: "    this.getCost = function () {\n        return this.cost;\n    }".to_string(),
        }],
        trailing: ";\n}".to_string(),
    }
}

#[test]
fn whole_artifact() {
    let expected = concat_lines(&[
        "// version: 1.0",
        "#[readonly::make]",
        "#[allow(dead_code)]",
        "struct Card {",
        "    name: u8, // TODO: initialized in constructor from name",
        "    cost: u8, // TODO: initialized in constructor from cardCost",
        "    count: u8, // TODO: initialized in constructor from 0",
        "}",
        "",
        "#[allow(dead_code)]",
        "impl Card {",
        "    pub fn new(name: u8, card_cost: u8) -> Self {",
        "        Self {",
        "            name,",
        "            cost: 0,",
        "            count: 0,",
        "        }",
        "        // TODO: ",
        "        //this.name = name;",
        "        //this.cost = cardCost;",
        "    }",
        "    pub fn get_cost(&self) {",
        "        todo!();",
        "        // TODO:",
        "        //    this.getCost = function () {",
        "        //        return this.cost;",
        "        //    }",
        "    }",
        "}",
        "",
        "// ;",
        "// }",
    ]);
    assert_eq!(render(&card(), "1.0"), expected);
}

fn concat_lines(lines: &[&str]) -> String {
    let mut out = String::new();
    for line in lines {
        out.push_str(line);
        out.push('\n');
    }
    out
}

#[test]
fn class_with_nothing_in_it() {
    let class = extract("function Empty() {}", "Empty").unwrap();
    let expected = concat_lines(&[
        "// version: 3",
        "#[readonly::make]",
        "#[allow(dead_code)]",
        "struct Empty {",
        "}",
        "",
        "#[allow(dead_code)]",
        "impl Empty {",
        "    pub fn new() -> Self {",
        "        Self {",
        "        }",
        "        // TODO: ",
        "        //}",
        "    }",
        "}",
        "",
        "// ",
    ]);
    assert_eq!(render(&class, "3"), expected);
}

#[test]
fn single_parameter_has_no_comma() {
    let mut class = card();
    class.constructor.args = vec!["only".to_string()];
    assert!(render(&class, "1").contains("    pub fn new(only: u8) -> Self {\n"));
}

#[test]
fn every_field_expression_is_kept() {
    let class = extract(
        "function Pile(cards) {\n    this.cards = cards || [];\n    this.topCard = cards[cards.length - 1];\n    this.label = \"a; b\";\n}",
        "Pile",
    )
    .unwrap();
    assert_eq!(class.attributes.len(), 3);
    let text = render(&class, "9");
    for field in &class.attributes {
        assert!(text.contains(field.value.as_str()));
    }
    assert!(text.contains("cards || []"));
    assert!(text.contains("cards[cards.length - 1]"));
    assert!(text.contains("\"a; b\""));
}

#[test]
fn scenario_field_is_defaulted_and_method_body_is_kept() {
    let content = "var CardName = function () { this.value = 0;\n CardName.prototype.getValue = function () { return this.value; };\n }";
    let class = extract(content, "CardName").unwrap();
    let text = render(&class, "1.5.1");
    assert!(text.starts_with("// version: 1.5.1\n"));
    assert!(text.contains("struct CardName {\n    value: u8, // TODO: initialized in constructor from 0\n}\n"));
    assert!(text.contains("    pub fn new() -> Self {\n        Self {\n            value: 0,\n        }\n"));
    assert!(text.contains("    pub fn get_value(&self) {\n        todo!();\n        // TODO:\n        // CardName.prototype.getValue = function () { return this.value; }\n    }\n"));
    assert!(text.ends_with("}\n\n// ;\n//  }\n"));
}

#[test]
fn matched_field_is_taken_from_its_parameter() {
    let class = extract("function P(x, other) {\n    this.x = x;\n    this.y = other;\n}", "P").unwrap();
    let text = render(&class, "1");
    assert!(text.contains("        Self {\n            x,\n            y: 0,\n        }\n"));
}

#[test]
fn fresh_artifact_is_unfinished() {
    let text = render(&card(), "1.0");
    assert_eq!(decide(Some(text.as_str()), "1.0"), Decision::Regenerate);
    let empty = extract("function Empty() {}", "Empty").unwrap();
    let text = render(&empty, "1.0");
    assert_eq!(decide(Some(text.as_str()), "1.0"), Decision::Regenerate);
}

#[test]
fn artifact_is_complete_once_the_markers_are_gone() {
    let text = render(&card(), "1.0");
    let finished: String = text
        .lines()
        .filter(|line| !line.contains("TODO"))
        .map(|line| format!("{}\n", line))
        .collect();
    assert_eq!(decide(Some(finished.as_str()), "1.0"), Decision::Skip);
    assert_eq!(decide(Some(finished.as_str()), "1.1"), Decision::Regenerate);
}

#[test]
fn version_with_a_line_break_never_completes() {
    let text = render(&card(), "1\n2");
    let finished: String = text
        .lines()
        .filter(|line| !line.contains("TODO"))
        .map(|line| format!("{}\n", line))
        .collect();
    assert_eq!(decide(Some(finished.as_str()), "1\n2"), Decision::Regenerate);
}
