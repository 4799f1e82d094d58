use css_cascade::css::{
    parse_stylesheet, Color, Declaration, Rule, Selector, SimpleSelector, Stylesheet, Unit, Value,
};
use css_cascade::dom::{ElementData, Node, NodeType};
use css_cascade::style::{
    black, match_rule, matches_simple_selector, matching_rules, rank_rules, specified_values,
    style_tree, Display, MatchedRule, PropertyMap, StyledNode,
};

fn element_data(tag: &str, id: Option<&str>, classes: &[&str]) -> ElementData {
    ElementData {
        tag_name: tag.to_string(),
        id: id.map(|id| id.to_string()),
        classes: classes.iter().map(|token| token.to_string()).collect(),
    }
}

fn element(tag: &str, classes: &[&str], children: Vec<Node>) -> Node {
    Node { children, node_type: NodeType::Element(element_data(tag, None, classes)) }
}

fn text(content: &str) -> Node {
    Node { children: vec![], node_type: NodeType::Text(content.to_string()) }
}

fn simple(tag: Option<&str>, id: Option<&str>, classes: &[&str]) -> SimpleSelector {
    SimpleSelector {
        tag_name: tag.map(|tag| tag.to_string()),
        id: id.map(|id| id.to_string()),
        class: classes.iter().map(|token| token.to_string()).collect(),
    }
}

fn keyword(word: &str) -> Value {
    Value::Keyword(word.to_string())
}

fn styled<'a>(node: &'a Node, entries: Vec<(&str, Value)>) -> StyledNode<'a> {
    let mut specified_values = PropertyMap::new();
    for (name, value) in entries {
        specified_values.insert(name.to_string(), value);
    }
    StyledNode { node, specified_values, children: vec![] }
}

fn resolve(data: &ElementData, source: &str, name: &str) -> Option<Value> {
    let values = specified_values(data, &parse_stylesheet(source));
    values.get(name).cloned()
}

#[test]
fn test_style_tree() {
    let doc = element(
        "html",
        &[],
        vec![element("body", &[], vec![element("div", &[".cool"], vec![text("hello")])])],
    );
    let stylesheet = parse_stylesheet(
        "div { background-color: white; border-color: red; border-width: 1px; color: black; } .cool { color: green; }",
    );
    let snode = style_tree(&doc, &stylesheet);
    println!("final snode is {:#?}", snode.node);
    assert_eq!(snode.node, &doc);
    assert_eq!(snode.specified_values.len(), 0);
    assert_eq!(snode.children.len(), 1);
    let body = &snode.children[0];
    assert_eq!(body.node, &doc.children[0]);
    assert_eq!(body.children.len(), 1);
    let div = &body.children[0];
    assert_eq!(div.node, &doc.children[0].children[0]);
    assert_eq!(div.specified_values.len(), 4);
    assert_eq!(div.value("background-color"), Some(keyword("white")));
    assert_eq!(div.value("border-color"), Some(keyword("red")));
    assert_eq!(div.value("border-width"), Some(Value::Length("1".to_string(), Unit::Px)));
    assert_eq!(div.value("color"), Some(keyword("green")));
    assert_eq!(div.children.len(), 1);
    assert_eq!(div.children[0].children.len(), 0);
    assert_eq!(div.children[0].node, &doc.children[0].children[0].children[0]);
}

#[test]
fn a_text_node_has_no_specified_values() {
    let stylesheet = parse_stylesheet("* { color: red; } div { color: blue; }");
    let alone = text("div");
    let tree = style_tree(&alone, &stylesheet);
    assert_eq!(tree.specified_values.len(), 0);
    assert_eq!(tree.value("color"), None);
    assert!(tree.children.is_empty());
    let parent = element("div", &[], vec![text("a"), element("p", &[], vec![]), text("b")]);
    let tree = style_tree(&parent, &stylesheet);
    assert_eq!(tree.value("color"), Some(keyword("blue")));
    assert_eq!(tree.children.len(), 3);
    assert_eq!(tree.children[0].specified_values.len(), 0);
    assert_eq!(tree.children[1].specified_values.len(), 0);
    assert_eq!(tree.children[2].specified_values.len(), 0);
}

#[test]
fn both_rules_of_the_example_apply() {
    let stylesheet = parse_stylesheet("div { border-width:1px; } .cool { color: red; }");
    let data = element_data("div", None, &[".cool"]);
    let values = specified_values(&data, &stylesheet);
    assert_eq!(values.len(), 2);
    assert_eq!(values.get("border-width"), Some(&Value::Length("1".to_string(), Unit::Px)));
    assert_eq!(values.get("color"), Some(&keyword("red")));
    let width = values.get("border-width").unwrap().to_px().parse::<f64>().unwrap() as f32;
    assert_eq!(width, 1.0);
    let plain = specified_values(&element_data("div", None, &["cool"]), &stylesheet);
    assert_eq!(plain.len(), 1);
    assert_eq!(plain.get("color"), None);
}

#[test]
fn a_class_rule_wins_over_a_tag_rule_in_either_order() {
    let data = element_data("div", None, &[".cool"]);
    let class_last = "div { color: blue; } .cool { color: red; }";
    let class_first = ".cool { color: red; } div { color: blue; }";
    assert_eq!(resolve(&data, class_last, "color"), Some(keyword("red")));
    assert_eq!(resolve(&data, class_first, "color"), Some(keyword("red")));
    let with_more = ".cool { color: red; } div { color: blue; margin: 1px; }";
    assert_eq!(resolve(&data, with_more, "color"), Some(keyword("red")));
    assert_eq!(resolve(&data, with_more, "margin"), Some(Value::Length("1".to_string(), Unit::Px)));
}

#[test]
fn the_star_selector_is_a_tag_name() {
    let source = "* { color: blue; }";
    assert_eq!(resolve(&element_data("div", None, &[]), source, "color"), None);
    assert_eq!(resolve(&element_data("*", None, &[]), source, "color"), Some(keyword("blue")));
}

#[test]
fn the_later_of_two_equal_rules_wins() {
    let data = element_data("div", None, &[".a", ".b"]);
    assert_eq!(
        resolve(&data, "div { color: red; } div { color: blue; }", "color"),
        Some(keyword("blue"))
    );
    assert_eq!(
        resolve(&data, ".a { color: red; } .b { color: blue; }", "color"),
        Some(keyword("blue"))
    );
    assert_eq!(
        resolve(&data, ".b { color: blue; } .a { color: red; }", "color"),
        Some(keyword("red"))
    );
    assert_eq!(
        resolve(&data, "div { color: red; color: green; }", "color"),
        Some(keyword("green"))
    );
    assert_eq!(
        resolve(&data, ".a { x: one; } div { x: two; } .b { x: three; } div { x: four; }", "x"),
        Some(keyword("three"))
    );
}

#[test]
fn a_simple_selector_matches_what_it_names() {
    let data = element_data("div", Some("main"), &[".a", ".b"]);
    assert!(matches_simple_selector(&data, &simple(Some("div"), None, &[])));
    assert!(!matches_simple_selector(&data, &simple(Some("p"), None, &[])));
    assert!(!matches_simple_selector(&data, &simple(Some("*"), None, &[])));
    assert!(matches_simple_selector(&data, &simple(None, Some("main"), &[])));
    assert!(!matches_simple_selector(&data, &simple(None, Some("other"), &[])));
    assert!(matches_simple_selector(&data, &simple(None, None, &[".a"])));
    assert!(matches_simple_selector(&data, &simple(None, None, &[".b", ".a"])));
    assert!(!matches_simple_selector(&data, &simple(None, None, &[".a", ".c"])));
    assert!(!matches_simple_selector(&data, &simple(None, None, &["a"])));
    assert!(matches_simple_selector(&data, &simple(Some("div"), Some("main"), &[".a", ".b"])));
    assert!(!matches_simple_selector(&data, &simple(Some("div"), Some("main"), &[".z"])));
    assert!(matches_simple_selector(&data, &simple(None, None, &[])));
    let anonymous = element_data("p", None, &[]);
    assert!(!matches_simple_selector(&anonymous, &simple(None, Some("main"), &[])));
    assert!(css_cascade::style::matching::matches(
        &anonymous,
        &Selector::Simple(simple(Some("p"), None, &[]))
    ));
    assert_eq!(data.id(), Some(&"main".to_string()));
    assert_eq!(anonymous.id(), None);
    assert!(data.has_class(&".b".to_string()));
    assert!(!data.has_class(&"b".to_string()));
}

#[test]
fn a_rule_applies_through_its_first_matching_selector() {
    let data = element_data("div", None, &[".a"]);
    let rule = Rule {
        selectors: vec![
            Selector::Simple(simple(Some("p"), None, &[])),
            Selector::Simple(simple(Some("div"), None, &[])),
            Selector::Simple(simple(Some("div"), None, &[".a"])),
        ],
        declarations: vec![],
    };
    assert_eq!(match_rule(&data, &rule), Some((0, 0, 1)));
    let other = Rule { selectors: vec![Selector::Simple(simple(Some("p"), None, &[]))], declarations: vec![] };
    assert_eq!(match_rule(&data, &other), None);
    assert_eq!(match_rule(&data, &Rule { selectors: vec![], declarations: vec![] }), None);
}

#[test]
fn matching_rules_come_in_source_order() {
    let stylesheet =
        parse_stylesheet(".a { x: y; } p { x: y; } div { x: y; } .b { x: y; } .a { x: y; }");
    let data = element_data("div", None, &[".a"]);
    assert_eq!(
        matching_rules(&data, &stylesheet),
        vec![
            MatchedRule { specificity: (0, 1, 0), rule: 0 },
            MatchedRule { specificity: (0, 0, 1), rule: 2 },
            MatchedRule { specificity: (0, 1, 0), rule: 4 },
        ]
    );
    assert_eq!(matching_rules(&data, &Stylesheet { rules: vec![] }), vec![]);
}

#[test]
fn ranking_is_by_specificity_and_then_by_source() {
    let matched = |specificity, rule| MatchedRule { specificity, rule };
    let mut rules = vec![
        matched((0, 1, 0), 0),
        matched((0, 0, 1), 1),
        matched((0, 0, 1), 2),
        matched((1, 0, 0), 3),
        matched((0, 1, 0), 4),
        matched((0, 0, 0), 5),
        matched((0, 2, 0), 6),
        matched((0, 1, 1), 7),
    ];
    rank_rules(&mut rules);
    assert_eq!(
        rules,
        vec![
            matched((0, 0, 0), 5),
            matched((0, 0, 1), 1),
            matched((0, 0, 1), 2),
            matched((0, 1, 0), 0),
            matched((0, 1, 0), 4),
            matched((0, 1, 1), 7),
            matched((0, 2, 0), 6),
            matched((1, 0, 0), 3),
        ]
    );
    assert!(matched((0, 0, 1), 9).before(&matched((0, 1, 0), 0)));
    assert!(matched((0, 1, 0), 0).before(&matched((0, 1, 0), 1)));
    assert!(!matched((0, 1, 0), 1).before(&matched((0, 1, 0), 1)));
    let mut none: Vec<MatchedRule> = vec![];
    rank_rules(&mut none);
    assert!(none.is_empty());
}

#[test]
fn an_id_rule_wins_over_class_rules() {
    let data = element_data("div", Some("main"), &[".a"]);
    let rule = |selector: SimpleSelector, word: &str| Rule {
        selectors: vec![Selector::Simple(selector)],
        declarations: vec![Declaration { name: "color".to_string(), value: keyword(word) }],
    };
    let stylesheet = Stylesheet {
        rules: vec![
            rule(simple(None, Some("main"), &[]), "gold"),
            rule(simple(None, None, &[".a"]), "red"),
            rule(simple(Some("div"), None, &[]), "blue"),
            rule(simple(None, Some("other"), &[]), "black"),
        ],
    };
    let values = specified_values(&data, &stylesheet);
    assert_eq!(values.len(), 1);
    assert_eq!(values.get("color"), Some(&keyword("gold")));
}

#[test]
fn display_is_inline_unless_it_says_block_or_none() {
    let node = text("");
    assert_eq!(styled(&node, vec![("display", keyword("block"))]).display(), Display::Block);
    assert_eq!(styled(&node, vec![("display", keyword("none"))]).display(), Display::Hidden);
    assert_eq!(styled(&node, vec![("display", keyword("inline"))]).display(), Display::Inline);
    assert_eq!(styled(&node, vec![("display", keyword("Block"))]).display(), Display::Inline);
    assert_eq!(styled(&node, vec![("display", keyword(""))]).display(), Display::Inline);
    assert_eq!(styled(&node, vec![]).display(), Display::Inline);
    assert_eq!(
        styled(&node, vec![("display", Value::HexColor("#000000".to_string()))]).display(),
        Display::Inline
    );
    assert_eq!(styled(&node, vec![("color", keyword("block"))]).display(), Display::Inline);
    let doc = element("div", &[], vec![]);
    let block = parse_stylesheet("div { display: block; }");
    assert_eq!(style_tree(&doc, &block).display(), Display::Block);
    let none = parse_stylesheet("div { display: none; }");
    assert_eq!(style_tree(&doc, &none).display(), Display::Hidden);
}

#[test]
fn a_color_is_black_unless_specified() {
    let node = text("");
    let red = Color { r: 255, g: 0, b: 0, a: 128 };
    let with_color = styled(&node, vec![("color", Value::ColorValue(red)), ("border", keyword("red"))]);
    assert_eq!(with_color.color("color"), red);
    assert_eq!(with_color.color("border"), Color { r: 0, g: 0, b: 0, a: 255 });
    assert_eq!(with_color.color("background"), black());
    assert_eq!(black(), Color { r: 0, g: 0, b: 0, a: 255 });
    let parsed = element("div", &[], vec![]);
    let stylesheet = parse_stylesheet("div { color: #ff0000; }");
    let tree = style_tree(&parsed, &stylesheet);
    assert_eq!(tree.value("color"), Some(Value::HexColor("#ff0000".to_string())));
    assert_eq!(tree.color("color"), black());
}

#[test]
fn an_inset_is_zero_unless_specified() {
    let node = text("");
    let with_width = styled(
        &node,
        vec![("margin", Value::Length("2.5".to_string(), Unit::Px)), ("padding", keyword("wide"))],
    );
    assert_eq!(with_width.insets("margin"), "2.5");
    assert_eq!(with_width.insets("padding"), "0");
    assert_eq!(with_width.insets("border"), "0");
    assert_eq!(with_width.insets("margin").parse::<f64>().unwrap() as f32, 2.5);
    assert_eq!(with_width.insets("border").parse::<f64>().unwrap() as f32, 0.0);
    assert_eq!(with_width.value("margin"), Some(Value::Length("2.5".to_string(), Unit::Px)));
    assert_eq!(with_width.value("nothing"), None);
}
