use browser_engine::css::{
    CSSOrigin, ColorRGBA, Declaration, Rule, Selector, SimpleSelector, StylesSheet, Unit, Value,
};
use browser_engine::dom::{comment, elem, text, AttrMap, ElementData, NodeType};
use browser_engine::props::{is_inherited_property, PropertyMap};
use browser_engine::style::{specified_values, style_tree, Display};

fn sel(tag: Option<&str>, id: Option<&str>, classes: &[&str]) -> Selector {
    Selector::Simple(SimpleSelector {
        tag_name: tag.map(|t| t.to_string()),
        id: id.map(|t| t.to_string()),
        class: classes.iter().map(|c| c.to_string()).collect(),
    })
}

fn decl(name: &str, value: Value, origin: CSSOrigin, important: bool) -> Declaration {
    Declaration { name: name.to_string(), value, origin, is_important: important }
}

fn kw(s: &str) -> Value {
    Value::Keyword(s.to_string())
}

fn sheet(origin: CSSOrigin, rules: Vec<(Vec<Selector>, Vec<(&str, Value, bool)>)>) -> StylesSheet {
    StylesSheet {
        origin,
        rules: rules
            .into_iter()
            .map(|(selectors, ds)| Rule {
                selectors,
                declarations: ds.into_iter().map(|(n, v, imp)| decl(n, v, origin, imp)).collect(),
                origin,
            })
            .collect(),
    }
}

fn element(tag: &str, attrs: &[(&str, &str)]) -> ElementData {
    let mut m = AttrMap::new();
    for (k, v) in attrs {
        m.insert(k.to_string(), v.to_string());
    }
    ElementData { tag_name: tag.to_string(), attrs: m }
}

fn keyword_of(m: &PropertyMap, name: &str) -> Option<String> {
    match m.get(name) {
        Some(Value::Keyword(k)) => Some(k.clone()),
        _ => None,
    }
}

#[test]
fn specificity_counts_ids_classes_and_tag() {
    assert_eq!(sel(Some("div"), Some("x"), &["a", "b"]).specificity(), (1, 2, 1));
    assert_eq!(sel(None, None, &[]).specificity(), (0, 0, 0));
    assert_eq!(sel(Some("p"), None, &["a", "b", "c"]).specificity(), (0, 3, 1));
    // one id outranks any number of classes and a tag
    assert!(sel(None, Some("x"), &[]).specificity() > sel(Some("p"), None, &["a", "b", "c"]).specificity());
    assert!(sel(None, None, &["a"]).specificity() > sel(Some("p"), None, &[]).specificity());
}

#[test]
fn selector_matching() {
    let e = element("div", &[("id", "main"), ("class", "note  wide\tbig")]);
    assert!(browser_engine::style::matches(&e, &sel(None, None, &[])));
    assert!(browser_engine::style::matches(&e, &sel(Some("div"), None, &[])));
    assert!(!browser_engine::style::matches(&e, &sel(Some("p"), None, &[])));
    assert!(browser_engine::style::matches(&e, &sel(None, Some("main"), &[])));
    assert!(!browser_engine::style::matches(&e, &sel(None, Some("other"), &[])));
    assert!(browser_engine::style::matches(&e, &sel(Some("div"), Some("main"), &["wide", "note", "big"])));
    assert!(!browser_engine::style::matches(&e, &sel(None, None, &["wid"])));
    assert!(!browser_engine::style::matches(&e, &sel(None, None, &["note wide"])));
    assert!(!browser_engine::style::matches(&e, &sel(None, None, &[""])));
    let bare = element("div", &[]);
    assert!(!browser_engine::style::matches(&bare, &sel(None, Some("main"), &[])));
    assert!(!browser_engine::style::matches(&bare, &sel(None, None, &["note"])));
}

#[test]
fn attribute_map_keeps_last_binding() {
    let mut m = AttrMap::new();
    m.insert("id".to_string(), "a".to_string());
    m.insert("class".to_string(), "b".to_string());
    m.insert("id".to_string(), "c".to_string());
    assert_eq!(m.get("id").map(|s| s.as_str()), Some("c"));
    assert_eq!(m.get("class").map(|s| s.as_str()), Some("b"));
    assert_eq!(m.get("style"), None);
    let e = ElementData { tag_name: "p".to_string(), attrs: m };
    assert_eq!(e.id().map(|s| s.as_str()), Some("c"));
    assert!(e.has_class("b"));
}

#[test]
fn user_important_beats_author_normal() {
    let e = element("p", &[]);
    let author = sheet(CSSOrigin::Author, vec![(vec![sel(Some("p"), None, &[])], vec![("color", kw("red"), false)])]);
    let user = sheet(CSSOrigin::User, vec![(vec![sel(Some("p"), None, &[])], vec![("color", kw("blue"), true)])]);
    let sheets = vec![author, user];
    let values = specified_values(&e, &sheets, None);
    assert_eq!(keyword_of(&values, "color"), Some("blue".to_string()));
}

#[test]
fn precedence_of_origin_and_importance() {
    let e = element("p", &[]);
    // (origin, important) in increasing priority
    let levels = [(CSSOrigin::User, false), (CSSOrigin::Author, false), (CSSOrigin::Author, true), (CSSOrigin::User, true)];
    for lo in 0..levels.len() {
        for hi in lo + 1..levels.len() {
            for low_first in [true, false] {
                let low = sheet(levels[lo].0, vec![(vec![sel(Some("p"), None, &[])], vec![("color", kw("low"), levels[lo].1)])]);
                let high = sheet(levels[hi].0, vec![(vec![sel(Some("p"), None, &[])], vec![("color", kw("high"), levels[hi].1)])]);
                let sheets = if low_first { vec![low, high] } else { vec![high, low] };
                let values = specified_values(&e, &sheets, None);
                assert_eq!(keyword_of(&values, "color"), Some("high".to_string()), "levels {} {}", lo, hi);
            }
        }
    }
}

#[test]
fn specificity_then_order_break_ties() {
    let e = element("p", &[("class", "a"), ("id", "i")]);
    let author = sheet(
        CSSOrigin::Author,
        vec![
            (vec![sel(None, Some("i"), &[])], vec![("color", kw("by-id"), false)]),
            (vec![sel(None, None, &["a"])], vec![("color", kw("by-class"), false), ("width", kw("first"), false)]),
            (vec![sel(Some("p"), None, &[])], vec![("width", kw("second"), false)]),
            (vec![sel(None, None, &["a"])], vec![("height", kw("one"), false), ("height", kw("two"), false)]),
        ],
    );
    let sheets = vec![author];
    let values = specified_values(&e, &sheets, None);
    assert_eq!(keyword_of(&values, "color"), Some("by-id".to_string()));
    assert_eq!(keyword_of(&values, "width"), Some("first".to_string()));
    assert_eq!(keyword_of(&values, "height"), Some("two".to_string()));
}

#[test]
fn author_normal_beats_user_normal_regardless_of_specificity() {
    let e = element("p", &[("id", "i")]);
    let user = sheet(CSSOrigin::User, vec![(vec![sel(None, Some("i"), &[])], vec![("color", kw("user"), false)])]);
    let author = sheet(CSSOrigin::Author, vec![(vec![sel(None, None, &[])], vec![("color", kw("author"), false)])]);
    let sheets = vec![user, author];
    let values = specified_values(&e, &sheets, None);
    assert_eq!(keyword_of(&values, "color"), Some("author".to_string()));
}

#[test]
fn first_matching_selector_of_a_rule_applies() {
    let e = element("p", &[("class", "a")]);
    let author = sheet(
        CSSOrigin::Author,
        vec![
            (vec![sel(Some("div"), None, &[]), sel(Some("p"), None, &[])], vec![("color", kw("tag"), false)]),
            (vec![sel(None, None, &[])], vec![("color", kw("star"), false)]),
        ],
    );
    let sheets = vec![author];
    let values = specified_values(&e, &sheets, None);
    // the first rule applies through `p`, which outranks `*`
    assert_eq!(keyword_of(&values, "color"), Some("tag".to_string()));
    let none = sheet(CSSOrigin::Author, vec![(vec![sel(Some("div"), None, &[])], vec![("color", kw("x"), false)])]);
    let sheets = vec![none];
    assert!(specified_values(&e, &sheets, None).get("color").is_none());
}

#[test]
fn inherited_properties_come_from_parent() {
    let mut parent = PropertyMap::new();
    parent.insert("color".to_string(), kw("green"));
    parent.insert("width".to_string(), Value::Length(10, Unit::Px));
    parent.insert("font-size".to_string(), Value::Length(12, Unit::Px));
    let e = element("p", &[]);
    let author = sheet(CSSOrigin::Author, vec![(vec![sel(None, None, &[])], vec![("font-size", Value::Length(20, Unit::Px), false)])]);
    let sheets = vec![author];
    let values = specified_values(&e, &sheets, Some(&parent));
    assert_eq!(keyword_of(&values, "color"), Some("green".to_string()));
    assert!(values.get("width").is_none());
    assert_eq!(values.get("font-size"), Some(&Value::Length(20, Unit::Px)));
}

#[test]
fn inherited_property_list() {
    assert!(is_inherited_property("color"));
    assert!(is_inherited_property("font-family"));
    assert!(is_inherited_property("word-spacing"));
    assert!(is_inherited_property("azimuth"));
    assert!(!is_inherited_property("width"));
    assert!(!is_inherited_property("display"));
    assert!(!is_inherited_property("colo"));
}

#[test]
fn style_tree_mirrors_document_and_inherits() {
    let mut attrs = AttrMap::new();
    attrs.insert("class".to_string(), "outer".to_string());
    let inner = elem("span".to_string(), AttrMap::new(), vec![text("hi".to_string())]);
    let doc = elem("div".to_string(), attrs, vec![inner, comment("c".to_string())]);
    let author = sheet(
        CSSOrigin::Author,
        vec![
            (vec![sel(None, None, &["outer"])], vec![("color", kw("red"), false), ("display", kw("block"), false)]),
            (vec![sel(Some("span"), None, &[])], vec![("margin", Value::Length(4, Unit::Px), false)]),
        ],
    );
    let sheets = vec![author];
    let root = style_tree(&doc, &sheets, None);
    assert_eq!(root.children.len(), 2);
    assert_eq!(root.display(), Display::Block);
    let span = &root.children[0];
    assert!(matches!(span.node.node_type, NodeType::Element(_)));
    assert_eq!(span.value("color"), Some(kw("red")));
    assert_eq!(span.display(), Display::Inline);
    assert_eq!(span.lookup("margin-left", "margin", &kw("none")), Value::Length(4, Unit::Px));
    assert_eq!(span.lookup("padding-left", "padding", &kw("none")), kw("none"));
    assert!(span.value("display").is_none());
    // text and comment nodes have no values of their own
    assert_eq!(span.children.len(), 1);
    assert!(span.children[0].value("color").is_none());
    assert!(root.children[1].value("color").is_none());
}

#[test]
fn colors_and_clones() {
    let c = Value::Color(ColorRGBA { r: 1, g: 2, b: 3, a: 255 });
    assert_eq!(c.clone(), c);
    let d = decl("x", kw("y"), CSSOrigin::User, true);
    let e = d.clone();
    assert_eq!(e.name, "x");
    assert!(e.is_important);
    assert_eq!(e.value, kw("y"));
}

#[test]
fn no_stylesheets_give_no_values() {
    let e = element("p", &[("class", "a")]);
    let sheets: Vec<StylesSheet> = Vec::new();
    let values = specified_values(&e, &sheets, None);
    assert!(values.get("color").is_none());
    let empty_sheet = vec![StylesSheet { rules: Vec::new(), origin: CSSOrigin::Author }];
    assert!(specified_values(&e, &empty_sheet, None).get("display").is_none());
}

#[test]
fn inheritance_reaches_through_generations() {
    let leaf = elem("b".to_string(), AttrMap::new(), Vec::new());
    let middle = elem("span".to_string(), AttrMap::new(), vec![leaf]);
    let doc = elem("div".to_string(), AttrMap::new(), vec![middle]);
    let author = sheet(
        CSSOrigin::Author,
        vec![
            (vec![sel(Some("div"), None, &[])], vec![("color", kw("navy"), false), ("background", kw("grey"), false)]),
            (vec![sel(Some("span"), None, &[])], vec![("line-height", kw("tall"), false)]),
        ],
    );
    let sheets = vec![author];
    let root = style_tree(&doc, &sheets, None);
    let b = &root.children[0].children[0];
    assert_eq!(b.value("color"), Some(kw("navy")));
    assert_eq!(b.value("line-height"), Some(kw("tall")));
    assert!(b.value("background").is_none());
    assert!(root.value("line-height").is_none());
}
