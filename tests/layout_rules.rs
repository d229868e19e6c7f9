use browser_engine::css::{CSSOrigin, Unit, Value};
use browser_engine::dom::{elem, text, AttrMap, Node};
use browser_engine::layout::{layout_tree, BoxType, Dimensions, EdgeSizes, LayoutBox, LayoutError, Rect};
use browser_engine::props::PropertyMap;
use browser_engine::style::StyledNode;

fn px(n: i64) -> Value {
    Value::Length(n, Unit::Px)
}

fn kw(s: &str) -> Value {
    Value::Keyword(s.to_string())
}

fn props(pairs: Vec<(&str, Value)>) -> PropertyMap {
    let mut m = PropertyMap::new();
    for (k, v) in pairs {
        m.insert(k.to_string(), v);
    }
    m
}

fn div() -> Node {
    elem("div".to_string(), AttrMap::new(), Vec::new())
}

fn viewport(width: i64, height: i64) -> Dimensions {
    let mut d: Dimensions = Default::default();
    d.content.width = width;
    d.content.height = height;
    d
}

fn styled<'a>(node: &'a Node, values: PropertyMap, children: Vec<StyledNode<'a>>) -> StyledNode<'a> {
    StyledNode { node, specified_values: values, children }
}

fn block(extra: Vec<(&str, Value)>) -> PropertyMap {
    let mut pairs = vec![("display", kw("block"))];
    pairs.extend(extra);
    props(pairs)
}

fn only_child<'a, 'b>(b: &'b LayoutBox<'a>) -> &'b LayoutBox<'a> {
    assert_eq!(b.children.len(), 1);
    &b.children[0]
}

#[test]
fn auto_width_fills_containing_block() {
    let n = div();
    let root = styled(&n, block(vec![]), vec![styled(&n, block(vec![]), vec![])]);
    let laid = layout_tree(&root, viewport(800, 600)).unwrap();
    let child = only_child(&laid);
    assert_eq!(child.dimensions.content.width, 800);
    assert_eq!(child.dimensions.margin.left, 0);
    assert_eq!(child.dimensions.margin.right, 0);
}

#[test]
fn auto_margins_center_fixed_width() {
    let n = div();
    let child_values = block(vec![
        ("width", px(100)),
        ("margin-left", kw("auto")),
        ("margin-right", kw("auto")),
    ]);
    let root = styled(&n, block(vec![]), vec![styled(&n, child_values, vec![])]);
    let laid = layout_tree(&root, viewport(800, 600)).unwrap();
    let child = only_child(&laid);
    assert_eq!(child.dimensions.content.width, 100);
    assert_eq!(child.dimensions.margin.left, 350);
    assert_eq!(child.dimensions.margin.right, 350);
    assert_eq!(child.dimensions.content.x, 350);
}

#[test]
fn blocks_stack_vertically() {
    let n = div();
    let root = styled(
        &n,
        block(vec![]),
        vec![
            styled(&n, block(vec![("height", px(50))]), vec![]),
            styled(&n, block(vec![("height", px(30))]), vec![]),
        ],
    );
    let laid = layout_tree(&root, viewport(800, 600)).unwrap();
    assert_eq!(laid.children.len(), 2);
    assert_eq!(laid.children[0].dimensions.content.y, 0);
    assert_eq!(laid.children[1].dimensions.content.y, 50);
    assert_eq!(laid.dimensions.content.height, 80);
}

#[test]
fn height_is_sum_of_child_margin_boxes() {
    let n = div();
    let first = block(vec![("height", px(20)), ("margin", px(5)), ("padding-top", px(3))]);
    let second = block(vec![("height", px(10)), ("border-width", px(2))]);
    let root = styled(&n, block(vec![]), vec![styled(&n, first, vec![]), styled(&n, second, vec![])]);
    let laid = layout_tree(&root, viewport(800, 600)).unwrap();
    // 20 + 5 + 5 + 3 (top padding only) and 10 + 2 + 2
    assert_eq!(laid.children[0].dimensions.margin_box().height, 33);
    assert_eq!(laid.children[1].dimensions.margin_box().height, 14);
    assert_eq!(laid.dimensions.content.height, 47);
    assert_eq!(laid.children[1].dimensions.content.y, 33 + 2);
}

#[test]
fn explicit_height_overrides_children() {
    let n = div();
    let root = styled(
        &n,
        block(vec![("height", px(10))]),
        vec![styled(&n, block(vec![("height", px(50))]), vec![])],
    );
    let laid = layout_tree(&root, viewport(800, 600)).unwrap();
    assert_eq!(laid.dimensions.content.height, 10);
}

#[test]
fn over_constrained_width_goes_to_right_margin() {
    let n = div();
    let child_values = block(vec![("width", px(300)), ("margin-left", px(100))]);
    let root = styled(&n, block(vec![]), vec![styled(&n, child_values, vec![])]);
    let laid = layout_tree(&root, viewport(800, 600)).unwrap();
    let child = only_child(&laid);
    assert_eq!(child.dimensions.margin.left, 100);
    assert_eq!(child.dimensions.margin.right, 400);
}

#[test]
fn single_auto_margin_takes_underflow() {
    let n = div();
    let left = block(vec![("width", px(300)), ("margin-left", kw("auto")), ("margin-right", px(20))]);
    let right = block(vec![("width", px(300)), ("margin-right", kw("auto")), ("padding", px(10))]);
    let root = styled(&n, block(vec![]), vec![styled(&n, left, vec![]), styled(&n, right, vec![])]);
    let laid = layout_tree(&root, viewport(800, 600)).unwrap();
    assert_eq!(laid.children[0].dimensions.margin.left, 480);
    assert_eq!(laid.children[0].dimensions.margin.right, 20);
    assert_eq!(laid.children[1].dimensions.margin.left, 0);
    assert_eq!(laid.children[1].dimensions.margin.right, 480);
    assert_eq!(laid.children[1].dimensions.padding.left, 10);
}

#[test]
fn overflowing_width_zeroes_auto_margins() {
    let n = div();
    let child_values = block(vec![
        ("width", px(900)),
        ("margin-left", kw("auto")),
        ("margin-right", kw("auto")),
    ]);
    let root = styled(&n, block(vec![]), vec![styled(&n, child_values, vec![])]);
    let laid = layout_tree(&root, viewport(800, 600)).unwrap();
    let child = only_child(&laid);
    assert_eq!(child.dimensions.margin.left, 0);
    assert_eq!(child.dimensions.margin.right, -100);
}

#[test]
fn auto_width_with_overflowing_edges() {
    let n = div();
    let child_values = block(vec![("margin-left", px(500)), ("padding-right", px(400))]);
    let root = styled(&n, block(vec![]), vec![styled(&n, child_values, vec![])]);
    let laid = layout_tree(&root, viewport(800, 600)).unwrap();
    let child = only_child(&laid);
    assert_eq!(child.dimensions.content.width, 0);
    assert_eq!(child.dimensions.margin.right, -100);
}

#[test]
fn odd_underflow_splits_without_losing_a_pixel() {
    let n = div();
    let child_values = block(vec![
        ("width", px(99)),
        ("margin-left", kw("auto")),
        ("margin-right", kw("auto")),
    ]);
    let root = styled(&n, block(vec![]), vec![styled(&n, child_values, vec![])]);
    let laid = layout_tree(&root, viewport(800, 600)).unwrap();
    let child = only_child(&laid);
    assert_eq!(child.dimensions.margin.left, 350);
    assert_eq!(child.dimensions.margin.right, 351);
}

#[test]
fn relative_units_count_as_zero() {
    let n = div();
    let child_values = block(vec![("margin-left", Value::Length(3, Unit::Em)), ("width", px(100))]);
    let root = styled(&n, block(vec![]), vec![styled(&n, child_values, vec![])]);
    let laid = layout_tree(&root, viewport(800, 600)).unwrap();
    assert_eq!(only_child(&laid).dimensions.margin.left, 0);
    assert_eq!(Value::Length(3, Unit::Em).to_px(), 0);
    assert_eq!(px(7).to_px(), 7);
    assert_eq!(kw("auto").to_px(), 0);
}

#[test]
fn hidden_root_is_an_error() {
    let n = div();
    let root = styled(&n, props(vec![("display", kw("none"))]), vec![]);
    assert_eq!(layout_tree(&root, viewport(800, 600)).err(), Some(LayoutError::RootDisplayNone));
}

#[test]
fn hidden_children_get_no_box() {
    let n = div();
    let root = styled(
        &n,
        block(vec![]),
        vec![
            styled(&n, props(vec![("display", kw("none"))]), vec![styled(&n, block(vec![]), vec![])]),
            styled(&n, block(vec![]), vec![]),
        ],
    );
    let laid = layout_tree(&root, viewport(800, 600)).unwrap();
    assert_eq!(laid.children.len(), 1);
    assert!(matches!(laid.children[0].box_type, BoxType::BlockNode(_)));
}

#[test]
fn inline_runs_are_wrapped_in_anonymous_boxes() {
    let n = div();
    let t = text("x".to_string());
    let root = styled(
        &n,
        block(vec![]),
        vec![
            styled(&t, PropertyMap::new(), vec![]),
            styled(&n, props(vec![("display", kw("inline"))]), vec![]),
            styled(&n, block(vec![("height", px(5))]), vec![]),
            styled(&t, PropertyMap::new(), vec![]),
        ],
    );
    let laid = layout_tree(&root, viewport(800, 600)).unwrap();
    assert_eq!(laid.children.len(), 3);
    assert!(matches!(laid.children[0].box_type, BoxType::AnonymousBlock));
    assert_eq!(laid.children[0].children.len(), 2);
    assert!(matches!(laid.children[0].children[0].box_type, BoxType::InlineNode(_)));
    assert!(matches!(laid.children[1].box_type, BoxType::BlockNode(_)));
    assert!(matches!(laid.children[2].box_type, BoxType::AnonymousBlock));
    assert_eq!(laid.children[2].children.len(), 1);
    // an anonymous box spans the containing width and stacks like a block
    assert_eq!(laid.children[0].dimensions.content.width, 800);
    assert_eq!(laid.children[2].dimensions.content.y, 5);
}

#[test]
fn inline_parent_keeps_children_directly() {
    let n = div();
    let root = styled(
        &n,
        PropertyMap::new(),
        vec![styled(&n, PropertyMap::new(), vec![]), styled(&n, block(vec![]), vec![])],
    );
    let laid = layout_tree(&root, viewport(800, 600)).unwrap();
    assert!(matches!(laid.box_type, BoxType::InlineNode(_)));
    assert_eq!(laid.children.len(), 2);
    assert!(matches!(laid.children[0].box_type, BoxType::InlineNode(_)));
    assert!(matches!(laid.children[1].box_type, BoxType::BlockNode(_)));
}

#[test]
fn root_starts_at_top_of_viewport() {
    let n = div();
    let root = styled(&n, block(vec![("margin-top", px(8)), ("margin-left", px(8))]), vec![]);
    let laid = layout_tree(&root, viewport(800, 600)).unwrap();
    assert_eq!(laid.dimensions.content.y, 8);
    assert_eq!(laid.dimensions.content.x, 8);
    assert_eq!(laid.dimensions.content.width, 792);
}

#[test]
fn laying_out_twice_gives_same_dimensions() {
    let n = div();
    let child_values = block(vec![("width", px(120)), ("margin-left", kw("auto")), ("border-left-width", px(4))]);
    let root = styled(&n, block(vec![]), vec![styled(&n, child_values, vec![])]);
    let first = layout_tree(&root, viewport(640, 0)).unwrap();
    let second = layout_tree(&root, viewport(640, 0)).unwrap();
    assert_eq!(first.children[0].dimensions, second.children[0].dimensions);
    assert_eq!(first.children[0].dimensions.margin.left, 640 - 124);
}

#[test]
fn boxes_expand_by_edges() {
    let r = Rect { x: 10, y: 20, width: 100, height: 50 };
    let e = EdgeSizes { left: 1, top: 2, right: 3, bottom: 4 };
    assert_eq!(r.expanded_by(e), Rect { x: 9, y: 18, width: 104, height: 56 });
    let d = Dimensions { content: r, padding: e, border: e, margin: e };
    assert_eq!(d.padding_box(), Rect { x: 9, y: 18, width: 104, height: 56 });
    assert_eq!(d.border_box(), Rect { x: 8, y: 16, width: 108, height: 62 });
    assert_eq!(d.margin_box(), Rect { x: 7, y: 14, width: 112, height: 68 });
}

#[test]
fn expansion_saturates() {
    let r = Rect { x: i64::MIN, y: 0, width: i64::MAX, height: 0 };
    let e = EdgeSizes { left: 5, top: 0, right: 5, bottom: 0 };
    let grown = r.expanded_by(e);
    assert_eq!(grown.x, i64::MIN);
    assert_eq!(grown.width, i64::MAX);
}

#[test]
fn origin_values_compare() {
    assert_ne!(CSSOrigin::Author, CSSOrigin::User);
}


#[test]
fn extreme_lengths_saturate() {
    let n = div();
    let child_values = block(vec![("margin-left", px(i64::MAX)), ("padding-left", px(i64::MAX))]);
    let root = styled(&n, block(vec![]), vec![styled(&n, child_values, vec![])]);
    let laid = layout_tree(&root, viewport(800, 600)).unwrap();
    let child = only_child(&laid);
    assert_eq!(child.dimensions.content.width, 0);
    assert_eq!(child.dimensions.margin.right, i64::MIN);
    assert_eq!(child.dimensions.content.x, i64::MAX);
    // MAX (padding) + MAX + MIN (margins), each step held to the range of i64
    assert_eq!(child.dimensions.margin_box().width, i64::MAX - 1);
}
