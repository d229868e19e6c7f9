use browser_engine::css::{self, CSSOrigin, ColorRGBA, Selector, Unit, Value};
use browser_engine::dom::{Node, NodeType};
use browser_engine::html;
use browser_engine::layout::{layout_tree, Dimensions, Rect};
use browser_engine::painting::{build_display_list, paint, Canvas, DisplayCommand};
use browser_engine::style::style_tree;

fn tag(n: &Node) -> &str {
    match &n.node_type {
        NodeType::Element(e) => e.tag_name.as_str(),
        _ => panic!("not an element"),
    }
}

fn text_of(n: &Node) -> &str {
    match &n.node_type {
        NodeType::Text(t) => t.as_str(),
        _ => panic!("not a text node"),
    }
}

#[test]
fn html_elements_attributes_text_and_comments() {
    let doc = html::parse("<html><body><p id=\"a\" class='x y'>Hello <em>world</em></p><!-- note --></body></html>".to_string());
    assert_eq!(tag(&doc), "html");
    let body = &doc.children[0];
    assert_eq!(tag(body), "body");
    assert_eq!(body.children.len(), 2);
    let p = &body.children[0];
    match &p.node_type {
        NodeType::Element(e) => {
            assert_eq!(e.tag_name, "p");
            assert_eq!(e.id().map(|s| s.as_str()), Some("a"));
            assert!(e.has_class("x"));
            assert!(e.has_class("y"));
        }
        _ => panic!("p expected"),
    }
    assert_eq!(text_of(&p.children[0]), "Hello ");
    assert_eq!(tag(&p.children[1]), "em");
    assert_eq!(text_of(&p.children[1].children[0]), "world");
    match &body.children[1].node_type {
        NodeType::Comment(c) => assert_eq!(c, " note "),
        _ => panic!("comment expected"),
    }
}

#[test]
fn html_several_roots_are_wrapped() {
    let doc = html::parse("<p></p><div></div>".to_string());
    assert_eq!(tag(&doc), "html");
    assert_eq!(doc.children.len(), 2);
    assert_eq!(tag(&doc.children[1]), "div");
    let single = html::parse("  <div>x</div>  ".to_string());
    assert_eq!(tag(&single), "div");
}

#[test]
fn html_malformed_input_does_not_panic() {
    let doc = html::parse("<div a=b><p>unclosed".to_string());
    assert_eq!(tag(&doc), "html");
    // the broken tag is dropped; what follows it is read as text
    let doc = html::parse("<div x/></div>".to_string());
    assert_eq!(text_of(&doc), "/>");
    let doc = html::parse(String::new());
    assert_eq!(doc.children.len(), 0);
}

#[test]
fn css_rules_selectors_and_values() {
    let sheet = css::parse(
        "div#a.b, p { color: #ff0080; margin: 10px; width: auto !important; }\n h1 { font-size: 2em; }".to_string(),
        CSSOrigin::Author,
    );
    assert_eq!(sheet.origin, CSSOrigin::Author);
    assert_eq!(sheet.rules.len(), 2);
    let rule = &sheet.rules[0];
    assert_eq!(rule.origin, CSSOrigin::Author);
    // ascending specificity
    assert_eq!(rule.selectors[0].specificity(), (0, 0, 1));
    assert_eq!(rule.selectors[1].specificity(), (1, 1, 1));
    let Selector::Simple(s) = &rule.selectors[1];
    assert_eq!(s.tag_name.as_deref(), Some("div"));
    assert_eq!(s.id.as_deref(), Some("a"));
    assert_eq!(s.class, vec!["b".to_string()]);
    let d = &rule.declarations;
    assert_eq!(d.len(), 3);
    assert_eq!(d[0].name, "color");
    assert_eq!(d[0].value, Value::Color(ColorRGBA { r: 255, g: 0, b: 128, a: 255 }));
    assert_eq!(d[1].value, Value::Length(10, Unit::Px));
    assert!(!d[1].is_important);
    assert_eq!(d[2].value, Value::Keyword("auto".to_string()));
    assert!(d[2].is_important);
    assert_eq!(sheet.rules[1].declarations[0].value, Value::Length(2, Unit::Em));
}

#[test]
fn css_skips_bad_declarations_and_rules() {
    let sheet = css::parse(
        "p { color red; margin: 12.7PX; padding: 3 ; height: #zz0000; width: 5rem; } ) { } * { display: none; }".to_string(),
        CSSOrigin::User,
    );
    let p = &sheet.rules[0];
    assert_eq!(p.declarations.len(), 2);
    assert_eq!(p.declarations[0].name, "margin");
    assert_eq!(p.declarations[0].value, Value::Length(12, Unit::Px));
    assert_eq!(p.declarations[0].origin, CSSOrigin::User);
    assert_eq!(p.declarations[1].value, Value::Length(5, Unit::Rem));
    let last = sheet.rules.last().unwrap();
    assert_eq!(last.selectors[0].specificity(), (0, 0, 0));
    assert_eq!(last.declarations[0].value, Value::Keyword("none".to_string()));
    let empty = css::parse("p { color: red;".to_string(), CSSOrigin::Author);
    assert_eq!(empty.rules.len(), 1);
    assert_eq!(empty.rules[0].declarations.len(), 1);
}

fn viewport(width: i64, height: i64) -> Dimensions {
    let mut d: Dimensions = Default::default();
    d.content.width = width;
    d.content.height = height;
    d
}

#[test]
fn display_list_and_canvas() {
    let doc = html::parse("<div class=\"box\"><p></p></div>".to_string());
    let sheets = vec![css::parse(
        ".box { display: block; background: #0000ff; border-color: #ff0000; border-width: 2px; height: 10px; width: 20px; } p { display: block; }".to_string(),
        CSSOrigin::Author,
    )];
    let styled = style_tree(&doc, &sheets, None);
    let root = layout_tree(&styled, viewport(40, 30)).unwrap();
    assert_eq!(root.dimensions.border_box(), Rect { x: 0, y: 0, width: 24, height: 14 });
    let list = build_display_list(&root);
    assert_eq!(list.len(), 5);
    let blue = ColorRGBA { r: 0, g: 0, b: 255, a: 255 };
    let red = ColorRGBA { r: 255, g: 0, b: 0, a: 255 };
    let DisplayCommand::SolidColor(c, r) = &list[0];
    assert_eq!((*c, *r), (blue, Rect { x: 0, y: 0, width: 24, height: 14 }));
    let DisplayCommand::SolidColor(c, r) = &list[2];
    assert_eq!((*c, *r), (red, Rect { x: 22, y: 0, width: 2, height: 14 }));
    let DisplayCommand::SolidColor(_, r) = &list[4];
    assert_eq!(*r, Rect { x: 0, y: 12, width: 24, height: 2 });

    let canvas: Canvas = paint(&root, viewport(40, 30).content);
    assert_eq!((canvas.width, canvas.height), (40, 30));
    assert_eq!(canvas.pixels.len(), 1200);
    let at = |x: usize, y: usize| canvas.pixels[y * 40 + x];
    let white = ColorRGBA { r: 255, g: 255, b: 255, a: 255 };
    assert_eq!(at(0, 0), red);
    assert_eq!(at(5, 5), blue);
    assert_eq!(at(23, 13), red);
    assert_eq!(at(24, 5), white);
    assert_eq!(at(5, 20), white);
}

#[test]
fn canvas_clips_and_handles_negative_bounds() {
    let doc = html::parse("<div></div>".to_string());
    let sheets = vec![css::parse("div { display: block; background: #010203; margin-left: 30px; }".to_string(), CSSOrigin::Author)];
    let styled = style_tree(&doc, &sheets, None);
    let root = layout_tree(&styled, viewport(10, 5)).unwrap();
    let canvas = paint(&root, Rect { x: 0, y: 0, width: 10, height: 5 });
    assert!(canvas.pixels.iter().all(|c| c.r == 255));
    let empty = paint(&root, Rect { x: 0, y: 0, width: -3, height: 4 });
    assert_eq!((empty.width, empty.height, empty.pixels.len()), (0, 4, 0));
}
