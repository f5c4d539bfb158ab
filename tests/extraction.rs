use magento2_ls::completion::{completion_at, PathCapture, Position, Range};
use magento2_ls::m2::M2Item;
use magento2_ls::php::{php_class_of, PhpMatch};
use magento2_ls::state::State;
use magento2_ls::xml::{get_item_from_tag, on_text_node, tag_from_captures, xml_path_of, TagCapture, TagPart, WalkNode, XmlPart};

fn at(line: u32, character: u32) -> Position {
    Position { line, character }
}

fn m(pattern: usize, text: &str, line: u32) -> PhpMatch {
    PhpMatch { pattern, text: text.to_string(), range: Range { start: at(line, 0), end: at(line, 5) } }
}

#[test]
fn php_class_from_matches() {
    let c = php_class_of(&vec![
        m(0, "Acme\\Mod", 1),
        m(1, "Thing", 3),
        m(3, "\\run", 5),
        m(3, "", 6),
        m(4, "LIMIT", 7),
    ])
    .unwrap();
    assert_eq!(c.fqn, "Acme\\Mod\\Thing");
    assert_eq!(c.range.start, at(3, 0));
    assert_eq!(c.methods.get("run").map(|r| r.start), Some(at(5, 0)));
    assert!(c.methods.get("").is_none());
    assert_eq!(c.constants.get("LIMIT").map(|r| r.start), Some(at(7, 0)));
    assert!(php_class_of(&vec![m(1, "Thing", 3)]).is_none());
    assert!(php_class_of(&vec![m(0, "", 1), m(2, "", 2)]).is_none());
}

fn cap(tag_id: usize, part: TagPart, text: &str, in_span: bool, hovered: bool) -> TagCapture {
    TagCapture { tag_id, part, text: text.to_string(), in_span, hovered }
}

#[test]
fn tag_from_query_captures() {
    let caps = vec![
        cap(9, TagPart::TagName, "other", false, false),
        cap(1, TagPart::TagName, "service", true, false),
        cap(1, TagPart::AttributeName, "class", true, false),
        cap(1, TagPart::AttributeValue, "A\\B\\C", true, false),
        cap(1, TagPart::AttributeName, "method", true, false),
        cap(1, TagPart::AttributeValue, "metHod", true, true),
    ];
    let tag = tag_from_captures(&caps).unwrap();
    assert_eq!(tag.name, "service");
    assert_eq!(tag.attributes.get("class"), Some(&"A\\B\\C".to_string()));
    assert!(matches!(&tag.hover_on, XmlPart::Attribute(n) if n == "method"));
    assert_eq!(
        get_item_from_tag(&State::new(), &tag, "/a/a/c"),
        Some(M2Item::Method("A\\B\\C".into(), "metHod".into()))
    );
    let restarted = tag_from_captures(&vec![
        cap(1, TagPart::TagName, "a", true, false),
        cap(2, TagPart::Text, "x", true, true),
    ]);
    assert!(restarted.is_none());
    assert!(tag_from_captures(&vec![]).is_none());
}

fn node(id: usize, kind: &str, text: &str, parent: Option<&str>, first: Option<usize>, second: Option<&str>) -> WalkNode {
    WalkNode {
        id,
        kind: kind.to_string(),
        text: text.to_string(),
        parent_kind: parent.map(str::to_string),
        first_child_id: first,
        second_child_text: second.map(str::to_string),
    }
}

#[test]
fn position_path_from_walk() {
    let walk = vec![
        node(5, "attribute_name", "template", Some("attribute"), None, None),
        node(6, "attribute_name", "name", Some("attribute"), None, None),
        node(4, "tag_name", "block", Some("start_tag"), None, None),
        node(3, "start_tag", "<type>", Some("element"), Some(30), Some("type")),
        node(3, "start_tag", "<type>", Some("element"), Some(30), Some("type")),
        node(2, "tag_name", "config", Some("start_tag"), None, None),
    ];
    assert_eq!(xml_path_of(false, &walk), Some("/config/type/block[@template]".to_string()));
    assert_eq!(xml_path_of(true, &walk), Some("/config/type/block[@template][$text]".to_string()));
    let closed = vec![
        node(7, "tag_name", "item", Some("end_tag"), None, None),
        node(8, "tag_name", "inner", Some("start_tag"), None, None),
        node(9, "tag_name", "config", Some("start_tag"), None, None),
    ];
    assert_eq!(xml_path_of(true, &closed), Some("/config".to_string()));
    let broken = vec![node(1, "tag_name", "x", None, None, None)];
    assert_eq!(xml_path_of(false, &broken), None);
    assert!(on_text_node(">", ">", None));
    assert!(on_text_node("text", "abc", Some((">".to_string(), ">".to_string()))));
    assert!(!on_text_node("text", "abc", None));
}

fn pc(kind: &str, raw: &str, start: Position, end: Position) -> PathCapture {
    PathCapture { kind: kind.to_string(), raw: raw.to_string(), start, end }
}

#[test]
fn completion_start_from_captures() {
    let caps = vec![
        pc("tag_name", "config", at(0, 1), at(0, 7)),
        pc("quoted_attribute_value", "\"\"", at(0, 10), at(0, 12)),
        pc(">", ">", at(0, 20), at(0, 21)),
    ];
    assert_eq!(completion_at(&caps, at(0, 4)), Some((0, "con".to_string(), 1)));
    assert_eq!(completion_at(&caps, at(0, 11)), Some((1, String::new(), 11)));
    assert_eq!(completion_at(&caps, at(0, 12)), None);
    assert_eq!(completion_at(&caps, at(0, 20)), None);
    assert_eq!(completion_at(&caps, at(0, 21)), Some((2, String::new(), 21)));
    assert_eq!(completion_at(&caps, at(5, 0)), None);
}
