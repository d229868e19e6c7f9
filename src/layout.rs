//! The box tree and block layout in normal flow: no floats, no absolute or
//! fixed positioning, no margin collapsing.

use vstd::prelude::*;

use crate::css::{Unit, Value};
use crate::props::{lookup_of, value_of, PropertyMap};
use crate::style::{display_of, Display, StyledNode};
use crate::text::str_eq;

verus! {

/// `x` held to the range of `i64`.
pub open spec fn clamp(x: int) -> int {
    if x < i64::MIN {
        i64::MIN as int
    } else if x > i64::MAX {
        i64::MAX as int
    } else {
        x
    }
}

fn clamp_i64(x: i128) -> (r: i64)
    ensures
        r == clamp(x as int),
{
    if x < i64::MIN as i128 {
        i64::MIN
    } else if x > i64::MAX as i128 {
        i64::MAX
    } else {
        x as i64
    }
}

/// A rectangle in pixels; `x` and `y` are its top left corner.
#[derive(Clone, Copy, Default, Debug, PartialEq, Eq, Structural)]
pub struct Rect {
    pub x: i64,
    pub y: i64,
    pub width: i64,
    pub height: i64,
}

/// The sizes of the four edges of a box.
#[derive(Clone, Copy, Default, Debug, PartialEq, Eq, Structural)]
pub struct EdgeSizes {
    pub left: i64,
    pub top: i64,
    pub right: i64,
    pub bottom: i64,
}

/// A content rectangle and the padding, border and margin around it.
#[derive(Clone, Copy, Default, Debug, PartialEq, Eq, Structural)]
pub struct Dimensions {
    pub content: Rect,
    pub padding: EdgeSizes,
    pub border: EdgeSizes,
    pub margin: EdgeSizes,
}

pub open spec fn expand(r: Rect, e: EdgeSizes) -> Rect {
    Rect {
        x: clamp(r.x - e.left) as i64,
        y: clamp(r.y - e.top) as i64,
        width: clamp(r.width + e.left + e.right) as i64,
        height: clamp(r.height + e.top + e.bottom) as i64,
    }
}

pub open spec fn margin_box_of(d: Dimensions) -> Rect {
    expand(expand(expand(d.content, d.padding), d.border), d.margin)
}

pub open spec fn zero_rect() -> Rect {
    Rect { x: 0, y: 0, width: 0, height: 0 }
}

pub open spec fn zero_edges() -> EdgeSizes {
    EdgeSizes { left: 0, top: 0, right: 0, bottom: 0 }
}

pub open spec fn zero_dimensions() -> Dimensions {
    Dimensions {
        content: zero_rect(),
        padding: zero_edges(),
        border: zero_edges(),
        margin: zero_edges(),
    }
}

impl Rect {
    /// This rectangle grown outward by `edge` on each side.
    pub fn expanded_by(self, edge: EdgeSizes) -> (r: Rect)
        ensures
            r == expand(self, edge),
    {
        Rect {
            x: clamp_i64(self.x as i128 - edge.left as i128),
            y: clamp_i64(self.y as i128 - edge.top as i128),
            width: clamp_i64(self.width as i128 + edge.left as i128 + edge.right as i128),
            height: clamp_i64(self.height as i128 + edge.top as i128 + edge.bottom as i128),
        }
    }
}

impl Dimensions {
    /// All sizes and positions zero.
    pub fn zero() -> (r: Dimensions)
        ensures
            r == zero_dimensions(),
    {
        let e = EdgeSizes { left: 0, top: 0, right: 0, bottom: 0 };
        Dimensions { content: Rect { x: 0, y: 0, width: 0, height: 0 }, padding: e, border: e, margin: e }
    }

    /// The content area plus its padding.
    pub fn padding_box(self) -> (r: Rect)
        ensures
            r == expand(self.content, self.padding),
    {
        self.content.expanded_by(self.padding)
    }

    /// The content area plus padding and borders.
    pub fn border_box(self) -> (r: Rect)
        ensures
            r == expand(expand(self.content, self.padding), self.border),
    {
        self.padding_box().expanded_by(self.border)
    }

    /// The content area plus padding, borders and margins.
    pub fn margin_box(self) -> (r: Rect)
        ensures
            r == margin_box_of(self),
    {
        self.border_box().expanded_by(self.margin)
    }
}

/// What a box stands for: a block or inline styled node, or an anonymous
/// block that groups inline boxes.
#[derive(Debug, Clone, Copy)]
pub enum BoxType<'a> {
    BlockNode(&'a StyledNode<'a>),
    InlineNode(&'a StyledNode<'a>),
    AnonymousBlock,
}

/// A box with its dimensions and its child boxes.
#[derive(Debug)]
pub struct LayoutBox<'a> {
    pub dimensions: Dimensions,
    pub box_type: BoxType<'a>,
    pub children: Vec<LayoutBox<'a>>,
}

/// The kind of a box in the box tree that a styled tree gives.
pub enum ModelKind<'a> {
    Block(StyledNode<'a>),
    Inline(StyledNode<'a>),
    Anonymous,
}

/// The shape of a box tree: each box's kind and its children.
pub struct BoxModel<'a> {
    pub kind: ModelKind<'a>,
    pub children: Seq<BoxModel<'a>>,
}

/// The box of a styled node whose display is block or inline, with the
/// boxes of its children.
pub open spec fn model_of<'a>(s: StyledNode<'a>) -> BoxModel<'a>
    decreases s, 1int,
{
    let block = display_of(s.specified_values@) == Display::Block;
    BoxModel {
        kind: if block {
            ModelKind::Block(s)
        } else {
            ModelKind::Inline(s)
        },
        children: group_children(block, s, s.children@.len() as int),
    }
}

/// The child boxes that the first `n` children of `s` give: a hidden child
/// gives none; under a block parent an inline child goes into the anonymous
/// box that ends the list, or into a new one.
pub open spec fn group_children<'a>(block_parent: bool, s: StyledNode<'a>, n: int) -> Seq<
    BoxModel<'a>,
>
    decreases s, 0int, n,
{
    if n <= 0 || n > s.children@.len() {
        Seq::empty()
    } else {
        let g = group_children(block_parent, s, n - 1);
        let c = s.children@[n - 1];
        let d = display_of(c.specified_values@);
        if d == Display::Hidden {
            g
        } else if d == Display::Block || !block_parent {
            g.push(model_of(c))
        } else if g.len() > 0nat && g.last().kind is Anonymous {
            g.update(
                g.len() - 1,
                BoxModel { kind: ModelKind::Anonymous, children: g.last().children.push(model_of(c)) },
            )
        } else {
            g.push(BoxModel { kind: ModelKind::Anonymous, children: seq![model_of(c)] })
        }
    }
}

pub open spec fn kind_agrees(t: BoxType, k: ModelKind) -> bool {
    match (t, k) {
        (BoxType::BlockNode(a), ModelKind::Block(b)) => *a == b,
        (BoxType::InlineNode(a), ModelKind::Inline(b)) => *a == b,
        (BoxType::AnonymousBlock, ModelKind::Anonymous) => true,
        _ => false,
    }
}

/// `b` is a freshly built box tree of shape `m`, all dimensions zero.
pub open spec fn built_as(b: LayoutBox, m: BoxModel) -> bool
    decreases m,
{
    &&& kind_agrees(b.box_type, m.kind)
    &&& b.dimensions == zero_dimensions()
    &&& b.children@.len() == m.children.len()
    &&& forall|i: int|
        #![trigger b.children@[i]]
        0 <= i < m.children.len() ==> built_as(b.children@[i], m.children[i])
}

pub open spec fn built_seq(bs: Seq<LayoutBox>, ms: Seq<BoxModel>) -> bool {
    &&& bs.len() == ms.len()
    &&& forall|j: int| #![trigger bs[j]] 0 <= j < bs.len() ==> built_as(bs[j], ms[j])
}

impl<'a> LayoutBox<'a> {
    fn new(box_type: BoxType<'a>) -> (r: LayoutBox<'a>)
        ensures
            r.box_type == box_type,
            r.dimensions == zero_dimensions(),
            r.children@.len() == 0,
    {
        LayoutBox { box_type, children: Vec::new(), dimensions: Dimensions::zero() }
    }

    /// The styled node of a block or inline box; an anonymous box has none.
    pub fn get_style_node(&self) -> (r: &'a StyledNode<'a>)
        requires
            !(self.box_type is AnonymousBlock),
        ensures
            self.box_type == BoxType::BlockNode(r) || self.box_type == BoxType::InlineNode(r),
    {
        match self.box_type {
            BoxType::BlockNode(node) => node,
            BoxType::InlineNode(node) => node,
            BoxType::AnonymousBlock => unreached(),
        }
    }

    /// Appends an inline box under a block box: into the anonymous box that
    /// ends the children, or into a new one.
    fn push_inline_child(&mut self, child: LayoutBox<'a>)
        ensures
            final(self).box_type == old(self).box_type,
            final(self).dimensions == old(self).dimensions,
            old(self).children@.len() > 0 && old(self).children@.last().box_type is AnonymousBlock
                ==> {
                let last = old(self).children@.last();
                &&& final(self).children@.len() == old(self).children@.len()
                &&& final(self).children@.drop_last() == old(self).children@.drop_last()
                &&& final(self).children@.last().box_type == last.box_type
                &&& final(self).children@.last().dimensions == last.dimensions
                &&& final(self).children@.last().children@ == last.children@.push(child)
            },
            !(old(self).children@.len() > 0 && old(self).children@.last().box_type is AnonymousBlock)
                ==> {
                let anon = final(self).children@.last();
                &&& final(self).children@.len() == old(self).children@.len() + 1
                &&& final(self).children@.drop_last() == old(self).children@
                &&& anon.box_type is AnonymousBlock
                &&& anon.dimensions == zero_dimensions()
                &&& anon.children@ == seq![child]
            },
    {
        let n = self.children.len();
        if n > 0 && matches!(self.children[n - 1].box_type, BoxType::AnonymousBlock) {
            let mut last = self.children.pop().unwrap();
            last.children.push(child);
            self.children.push(last);
        } else {
            let mut anon = LayoutBox::new(BoxType::AnonymousBlock);
            anon.children.push(child);
            assert(anon.children@ =~= seq![child]);
            self.children.push(anon);
        }
    }
}

/// Builds the box tree of a styled node whose display is not `none`; all
/// dimensions are left zero.
#[verifier::rlimit(40)]
fn build_layout_tree<'a>(style_node: &'a StyledNode<'a>) -> (r: LayoutBox<'a>)
    requires
        display_of(style_node.specified_values@) != Display::Hidden,
    ensures
        built_as(r, model_of(*style_node)),
    decreases *style_node,
{
    let block = style_node.display() == Display::Block;
    let mut root = LayoutBox::new(
        if block {
            BoxType::BlockNode(style_node)
        } else {
            BoxType::InlineNode(style_node)
        },
    );
    let ghost s = *style_node;
    let mut i: usize = 0;
    while i < style_node.children.len()
        invariant
            s == *style_node,
            block == (display_of(s.specified_values@) == Display::Block),
            i <= s.children@.len(),
            kind_agrees(root.box_type, model_of(s).kind),
            root.dimensions == zero_dimensions(),
            built_seq(root.children@, group_children(block, s, i as int)),
        decreases s.children@.len() - i,
    {
        let child = &style_node.children[i];
        let d = child.display();
        let ghost g = group_children(block, s, i as int);
        let ghost old_kids = root.children@;
        if d == Display::Hidden {
        } else if d == Display::Block || !block {
            let b = build_layout_tree(child);
            root.children.push(b);
            assert(built_seq(root.children@, g.push(model_of(*child))));
        } else {
            let b = build_layout_tree(child);
            root.push_inline_child(b);
            proof {
                if g.len() > 0nat && g.last().kind is Anonymous {
                    let ghost m = BoxModel {
                        kind: ModelKind::Anonymous,
                        children: g.last().children.push(model_of(*child)),
                    };
                    assert(built_as(old_kids.last(), g.last()));
                    assert(built_as(root.children@.last(), m));
                    assert(built_seq(root.children@, g.update(g.len() - 1, m))) by {
                        assert forall|j: int| 0 <= j < root.children@.len() - 1 implies built_as(
                            root.children@[j],
                            g.update(g.len() - 1, m)[j],
                        ) by {
                            assert(root.children@[j] == root.children@.drop_last()[j]);
                            assert(built_as(old_kids[j], g[j]));
                        }
                    }
                } else {
                    let ghost m = BoxModel { kind: ModelKind::Anonymous, children: seq![model_of(*child)] };
                    assert(built_as(root.children@.last(), m));
                    assert(built_seq(root.children@, g.push(m))) by {
                        assert forall|j: int| 0 <= j < root.children@.len() - 1 implies built_as(
                            root.children@[j],
                            g.push(m)[j],
                        ) by {
                            assert(root.children@[j] == root.children@.drop_last()[j]);
                            assert(built_as(old_kids[j], g[j]));
                        }
                    }
                }
            }
        }
        i = i + 1;
    }
    root
}

/// An anonymous box holds a non-empty run of inline boxes.
pub open spec fn wraps_inline_run(m: BoxModel) -> bool {
    m.children.len() > 0 && forall|k: int| 0 <= k < m.children.len() ==> #[trigger] m.children[k].kind is Inline
}

/// The children of a block box are grouped well: no inline box stands
/// directly among them, each anonymous box wraps a run of inline boxes, and
/// no two anonymous boxes are adjacent.
pub open spec fn grouped_well(g: Seq<BoxModel>) -> bool {
    forall|j: int|
        0 <= j < g.len() ==> {
            &&& !(#[trigger] g[j].kind is Inline)
            &&& g[j].kind is Anonymous ==> wraps_inline_run(g[j])
            &&& (j < g.len() - 1 && g[j].kind is Anonymous) ==> !(g[j + 1].kind is Anonymous)
        }
}

#[verifier::rlimit(40)]
proof fn lemma_group_block(s: StyledNode, n: int)
    ensures
        grouped_well(group_children(true, s, n)),
    decreases n,
{
    if 0 < n <= s.children@.len() {
        lemma_group_block(s, n - 1);
        let g = group_children(true, s, n - 1);
        let c = s.children@[n - 1];
        let d = display_of(c.specified_values@);
        let r = group_children(true, s, n);
        if d == Display::Hidden {
            assert(r == g);
        } else if d == Display::Block {
            assert(r == g.push(model_of(c)));
            assert(model_of(c).kind is Block);
            assert forall|j: int| 0 <= j < r.len() implies {
                &&& !(#[trigger] r[j].kind is Inline)
                &&& r[j].kind is Anonymous ==> wraps_inline_run(r[j])
                &&& (j < r.len() - 1 && r[j].kind is Anonymous) ==> !(r[j + 1].kind is Anonymous)
            } by {
                if j < g.len() {
                    assert(r[j] == g[j]);
                }
            }
        } else {
            assert(model_of(c).kind is Inline);
            if g.len() > 0 && g.last().kind is Anonymous {
                let m = BoxModel {
                    kind: ModelKind::Anonymous,
                    children: g.last().children.push(model_of(c)),
                };
                assert(r == g.update(g.len() - 1, m));
                assert(wraps_inline_run(g[g.len() - 1]));
                assert(wraps_inline_run(m)) by {
                    assert forall|k: int| 0 <= k < m.children.len() implies #[trigger] m.children[k].kind is Inline by {
                        if k < m.children.len() - 1 {
                            assert(m.children[k] == g.last().children[k]);
                        }
                    }
                }
                assert forall|j: int| 0 <= j < r.len() implies {
                    &&& !(#[trigger] r[j].kind is Inline)
                    &&& r[j].kind is Anonymous ==> wraps_inline_run(r[j])
                    &&& (j < r.len() - 1 && r[j].kind is Anonymous) ==> !(r[j + 1].kind is Anonymous)
                } by {
                    if j < g.len() - 1 {
                        assert(r[j] == g[j]);
                        assert(r[j + 1] == g[j + 1] || j + 1 == g.len() - 1);
                    }
                }
            } else {
                let m = BoxModel { kind: ModelKind::Anonymous, children: seq![model_of(c)] };
                assert(r == g.push(m));
                assert(wraps_inline_run(m));
                assert forall|j: int| 0 <= j < r.len() implies {
                    &&& !(#[trigger] r[j].kind is Inline)
                    &&& r[j].kind is Anonymous ==> wraps_inline_run(r[j])
                    &&& (j < r.len() - 1 && r[j].kind is Anonymous) ==> !(r[j + 1].kind is Anonymous)
                } by {
                    if j < g.len() {
                        assert(r[j] == g[j]);
                    }
                }
            }
        }
    }
}

/// Anonymous boxes: every child box of a built block box is a block box or
/// an anonymous box; each anonymous box wraps a non-empty run of inline
/// boxes, and two anonymous boxes are never adjacent, so each maximal run of
/// inline children is wrapped by exactly one anonymous box.
pub proof fn lemma_anonymous_boxes(b: LayoutBox, s: StyledNode)
    requires
        built_as(b, model_of(s)),
        b.box_type is BlockNode,
    ensures
        forall|j: int|
            0 <= j < b.children@.len() ==> !(#[trigger] b.children@[j].box_type is InlineNode),
        forall|j: int|
            0 <= j < b.children@.len() && #[trigger] b.children@[j].box_type is AnonymousBlock
                ==> b.children@[j].children@.len() > 0 && forall|k: int|
                0 <= k < b.children@[j].children@.len()
                    ==> #[trigger] b.children@[j].children@[k].box_type is InlineNode,
        forall|j: int|
            0 <= j < b.children@.len() - 1 && #[trigger] b.children@[j].box_type is AnonymousBlock
                ==> !(b.children@[j + 1].box_type is AnonymousBlock),
{
    let m = model_of(s);
    assert(display_of(s.specified_values@) == Display::Block);
    lemma_group_block(s, s.children@.len() as int);
    assert(m.children == group_children(true, s, s.children@.len() as int));
    assert forall|j: int| 0 <= j < b.children@.len() implies built_as(
        #[trigger] b.children@[j],
        m.children[j],
    ) by {}
    assert forall|j: int, k: int|
        0 <= j < b.children@.len() && b.children@[j].box_type is AnonymousBlock && 0 <= k
            < b.children@[j].children@.len() implies built_as(
        #[trigger] b.children@[j].children@[k],
        m.children[j].children[k],
    ) by {
        assert(built_as(b.children@[j], m.children[j]));
    }
}

pub open spec fn zero_px() -> Value {
    Value::Length(0, Unit::Px)
}

pub open spec fn is_auto(v: Value) -> bool {
    v is Keyword && v->Keyword_0@ == "auto"@
}

fn is_auto_value(v: &Value) -> (r: bool)
    ensures
        r == is_auto(*v),
{
    match v {
        Value::Keyword(k) => str_eq(k.as_str(), "auto"),
        _ => false,
    }
}

/// The pixel size of an edge: the longhand `name`, else the shorthand, else 0.
pub open spec fn edge_px(m: Map<Seq<char>, Value>, name: Seq<char>, shorthand: Seq<char>) -> int {
    lookup_of(m, name, shorthand, zero_px()).px()
}

/// The property values that lay out a box: its styled node's, or none for
/// an anonymous box.
pub open spec fn box_values(t: BoxType) -> Map<Seq<char>, Value> {
    match t {
        BoxType::BlockNode(s) => s.specified_values@,
        BoxType::InlineNode(s) => s.specified_values@,
        BoxType::AnonymousBlock => Map::empty(),
    }
}

/// `d` after solving the horizontal box model against the containing block
/// `cb`. `auto` counts as 0 in the sum of widths; when an explicit width
/// overflows the containing block, `auto` margins become 0. The difference
/// between the containing width and the sum then goes: to an `auto` width
/// (to the right margin when negative), else split between two `auto`
/// margins (the left one gets the lower half), else to the one `auto`
/// margin, else to the right margin.
#[verifier::opaque]
pub open spec fn width_solved(m: Map<Seq<char>, Value>, cb: Dimensions, d: Dimensions) -> Dimensions {
    let w = value_of(m, "width"@);
    let width_auto = w is None || is_auto(w->0);
    let width_px = if w is Some {
        w->0.px()
    } else {
        0
    };
    let ml = lookup_of(m, "margin-left"@, "margin"@, zero_px());
    let mr = lookup_of(m, "margin-right"@, "margin"@, zero_px());
    let bl = edge_px(m, "border-left-width"@, "border-width"@);
    let br = edge_px(m, "border-right-width"@, "border-width"@);
    let pl = edge_px(m, "padding-left"@, "padding"@);
    let pr = edge_px(m, "padding-right"@, "padding"@);
    let total = ml.px() + mr.px() + bl + br + pl + pr + width_px;
    let forced = !width_auto && total > cb.content.width;
    let ml_auto = is_auto(ml) && !forced;
    let mr_auto = is_auto(mr) && !forced;
    let underflow = cb.content.width - total;
    let width = if width_auto {
        if underflow >= 0 {
            underflow
        } else {
            0
        }
    } else {
        width_px
    };
    let left = if !width_auto && ml_auto && mr_auto {
        underflow / 2
    } else if !width_auto && ml_auto {
        underflow
    } else {
        ml.px()
    };
    let right = if width_auto {
        if underflow >= 0 {
            mr.px()
        } else {
            mr.px() + underflow
        }
    } else if ml_auto && mr_auto {
        underflow - underflow / 2
    } else if mr_auto {
        underflow
    } else if ml_auto {
        mr.px()
    } else {
        mr.px() + underflow
    };
    Dimensions {
        content: Rect {
            x: d.content.x,
            y: d.content.y,
            width: clamp(width) as i64,
            height: d.content.height,
        },
        padding: EdgeSizes {
            left: pl as i64,
            top: d.padding.top,
            right: pr as i64,
            bottom: d.padding.bottom,
        },
        border: EdgeSizes {
            left: bl as i64,
            top: d.border.top,
            right: br as i64,
            bottom: d.border.bottom,
        },
        margin: EdgeSizes {
            left: clamp(left) as i64,
            top: d.margin.top,
            right: clamp(right) as i64,
            bottom: d.margin.bottom,
        },
    }
}

/// `d` after placing the box below what the containing block holds so far:
/// the vertical edges come from the style, and the content area starts
/// inside the left and top edges.
#[verifier::opaque]
pub open spec fn position_solved(m: Map<Seq<char>, Value>, cb: Dimensions, d: Dimensions) -> Dimensions {
    let mt = edge_px(m, "margin-top"@, "margin"@);
    let mb = edge_px(m, "margin-bottom"@, "margin"@);
    let bt = edge_px(m, "border-top-width"@, "border-width"@);
    let bb = edge_px(m, "border-bottom-width"@, "border-width"@);
    let pt = edge_px(m, "padding-top"@, "padding"@);
    let pb = edge_px(m, "padding-bottom"@, "padding"@);
    Dimensions {
        content: Rect {
            x: clamp(cb.content.x + d.margin.left + d.border.left + d.padding.left) as i64,
            y: clamp(cb.content.y + cb.content.height + mt + bt + pt) as i64,
            width: d.content.width,
            height: d.content.height,
        },
        padding: EdgeSizes {
            left: d.padding.left,
            top: pt as i64,
            right: d.padding.right,
            bottom: pb as i64,
        },
        border: EdgeSizes {
            left: d.border.left,
            top: bt as i64,
            right: d.border.right,
            bottom: bb as i64,
        },
        margin: EdgeSizes {
            left: d.margin.left,
            top: mt as i64,
            right: d.margin.right,
            bottom: mb as i64,
        },
    }
}

pub open spec fn with_height(d: Dimensions, h: int) -> Dimensions {
    Dimensions {
        content: Rect { x: d.content.x, y: d.content.y, width: d.content.width, height: h as i64 },
        padding: d.padding,
        border: d.border,
        margin: d.margin,
    }
}

/// An explicit `px` height replaces the content height.
pub open spec fn height_applied(m: Map<Seq<char>, Value>, d: Dimensions) -> Dimensions {
    match value_of(m, "height"@) {
        Some(Value::Length(h, Unit::Px)) => with_height(d, h as int),
        _ => d,
    }
}

/// `h0` plus the margin-box heights of the first `i` boxes of `kids`.
pub open spec fn stacked_height(h0: int, kids: Seq<LayoutBox>, i: int) -> int
    decreases i,
{
    if i <= 0 {
        h0
    } else {
        clamp(stacked_height(h0, kids, i - 1) + margin_box_of(kids[i - 1].dimensions).height)
    }
}

/// `after` is `before` laid out in the containing block `cb`: width, then
/// position, then each child in turn below the ones before it, then height.
pub open spec fn laid_out(after: LayoutBox, before: LayoutBox, cb: Dimensions) -> bool
    decreases before, 1int,
{
    let m = box_values(before.box_type);
    let d1 = position_solved(m, cb, width_solved(m, cb, before.dimensions));
    &&& after.box_type == before.box_type
    &&& children_stacked(before, after.children@, d1)
    &&& after.dimensions == height_applied(
        m,
        with_height(d1, stacked_height(d1.content.height as int, after.children@, before.children@.len() as int)),
    )
}

/// `kids` are the children of `before` laid out one below the other in a
/// box whose dimensions are `d` before the first of them.
pub open spec fn children_stacked(before: LayoutBox, kids: Seq<LayoutBox>, d: Dimensions) -> bool
    decreases before, 0int,
{
    &&& kids.len() == before.children@.len()
    &&& forall|i: int|
        #![trigger kids[i]]
        0 <= i < before.children@.len() ==> laid_out(
            kids[i],
            before.children@[i],
            with_height(d, stacked_height(d.content.height as int, kids, i)),
        )
}

proof fn lemma_stacked_prefix(h0: int, a: Seq<LayoutBox>, b: Seq<LayoutBox>, i: int)
    requires
        0 <= i <= a.len(),
        i <= b.len(),
        forall|j: int| 0 <= j < i ==> a[j] == b[j],
    ensures
        stacked_height(h0, a, i) == stacked_height(h0, b, i),
    decreases i,
{
    if i > 0 {
        lemma_stacked_prefix(h0, a, b, i - 1);
    }
}

impl<'a> LayoutBox<'a> {
    fn calculate_width(&mut self, values: &PropertyMap, containing_block: Dimensions)
        ensures
            final(self).dimensions == width_solved(values@, containing_block, old(self).dimensions),
            final(self).box_type == old(self).box_type,
            final(self).children == old(self).children,
    {
        reveal(width_solved);
        let zero = Value::Length(0, Unit::Px);
        let width = values.value("width");
        let width_auto = match &width {
            Some(v) => is_auto_value(v),
            None => true,
        };
        let width_px: i64 = match &width {
            Some(v) => v.to_px(),
            None => 0,
        };
        let margin_left = values.lookup("margin-left", "margin", &zero);
        let margin_right = values.lookup("margin-right", "margin", &zero);
        let border_left = values.lookup("border-left-width", "border-width", &zero).to_px();
        let border_right = values.lookup("border-right-width", "border-width", &zero).to_px();
        let padding_left = values.lookup("padding-left", "padding", &zero).to_px();
        let padding_right = values.lookup("padding-right", "padding", &zero).to_px();
        let ml: i128 = margin_left.to_px() as i128;
        let mr: i128 = margin_right.to_px() as i128;
        let total: i128 = ml + mr + border_left as i128 + border_right as i128 + padding_left as i128
            + padding_right as i128 + width_px as i128;
        let cb_width: i128 = containing_block.content.width as i128;
        let forced = !width_auto && total > cb_width;
        let ml_auto = is_auto_value(&margin_left) && !forced;
        let mr_auto = is_auto_value(&margin_right) && !forced;
        let underflow: i128 = cb_width - total;
        let new_width: i128 = if width_auto {
            if underflow >= 0 {
                underflow
            } else {
                0
            }
        } else {
            width_px as i128
        };
        let left: i128 = if !width_auto && ml_auto && mr_auto {
            underflow / 2
        } else if !width_auto && ml_auto {
            underflow
        } else {
            ml
        };
        let right: i128 = if width_auto {
            if underflow >= 0 {
                mr
            } else {
                mr + underflow
            }
        } else if ml_auto && mr_auto {
            underflow - underflow / 2
        } else if mr_auto {
            underflow
        } else if ml_auto {
            mr
        } else {
            mr + underflow
        };
        let d = &mut self.dimensions;
        d.content.width = clamp_i64(new_width);
        d.padding.left = padding_left;
        d.padding.right = padding_right;
        d.border.left = border_left;
        d.border.right = border_right;
        d.margin.left = clamp_i64(left);
        d.margin.right = clamp_i64(right);
    }

    fn calculate_position(&mut self, values: &PropertyMap, containing_block: Dimensions)
        ensures
            final(self).dimensions == position_solved(
                values@,
                containing_block,
                old(self).dimensions,
            ),
            final(self).box_type == old(self).box_type,
            final(self).children == old(self).children,
    {
        reveal(position_solved);
        let zero = Value::Length(0, Unit::Px);
        let d = &mut self.dimensions;
        d.margin.top = values.lookup("margin-top", "margin", &zero).to_px();
        d.margin.bottom = values.lookup("margin-bottom", "margin", &zero).to_px();
        d.border.top = values.lookup("border-top-width", "border-width", &zero).to_px();
        d.border.bottom = values.lookup("border-bottom-width", "border-width", &zero).to_px();
        d.padding.top = values.lookup("padding-top", "padding", &zero).to_px();
        d.padding.bottom = values.lookup("padding-bottom", "padding", &zero).to_px();
        d.content.x = clamp_i64(
            containing_block.content.x as i128 + d.margin.left as i128 + d.border.left as i128
                + d.padding.left as i128,
        );
        d.content.y = clamp_i64(
            containing_block.content.y as i128 + containing_block.content.height as i128
                + d.margin.top as i128 + d.border.top as i128 + d.padding.top as i128,
        );
    }

    fn calculate_height(&mut self, values: &PropertyMap)
        ensures
            final(self).dimensions == height_applied(values@, old(self).dimensions),
            final(self).box_type == old(self).box_type,
            final(self).children == old(self).children,
    {
        if let Some(Value::Length(h, Unit::Px)) = values.value("height") {
            self.dimensions.content.height = h;
        }
    }

    /// Lays out this box and its descendants in `containing_block`; an
    /// anonymous box is laid out as a block without edges of its own.
    pub fn layout(&mut self, containing_block: Dimensions)
        ensures
            laid_out(*final(self), *old(self), containing_block),
        decreases old(self).children, 2int,
    {
        let empty = PropertyMap::new();
        let values: &PropertyMap = if matches!(self.box_type, BoxType::AnonymousBlock) {
            &empty
        } else {
            &self.get_style_node().specified_values
        };
        self.layout_block(values, containing_block);
    }

    fn layout_block(&mut self, values: &PropertyMap, containing_block: Dimensions)
        requires
            values@ == box_values(old(self).box_type),
        ensures
            laid_out(*final(self), *old(self), containing_block),
        decreases old(self).children, 1int,
    {
        let ghost before = *self;
        self.calculate_width(values, containing_block);
        self.calculate_position(values, containing_block);
        let ghost d1 = self.dimensions;
        self.layout_children();
        let ghost laid = *self;
        self.calculate_height(values);
        assert(self.children == laid.children);
        assert(children_stacked(before, self.children@, d1));
    }

    /// Lays out the children one below the other, growing the content
    /// height by each one's margin box.
    #[verifier::rlimit(40)]
    fn layout_children(&mut self)
        ensures
            final(self).box_type == old(self).box_type,
            children_stacked(*old(self), final(self).children@, old(self).dimensions),
            final(self).dimensions == with_height(
                old(self).dimensions,
                stacked_height(
                    old(self).dimensions.content.height as int,
                    final(self).children@,
                    old(self).children@.len() as int,
                ),
            ),
        decreases old(self).children, 0int,
    {
        let ghost before = *self;
        let ghost d1 = self.dimensions;
        let ghost h0 = d1.content.height as int;
        assert(self.dimensions == with_height(d1, stacked_height(h0, self.children@, 0)));
        let mut i: usize = 0;
        while i < self.children.len()
            invariant
                before == *old(self),
                self.box_type == before.box_type,
                self.children@.len() == before.children@.len(),
                i <= self.children@.len(),
                h0 == d1.content.height,
                d1 == before.dimensions,
                forall|j: int| i <= j < self.children@.len() ==> self.children@[j] == before.children@[j],
                forall|j: int|
                    0 <= j < i ==> laid_out(
                        #[trigger] self.children@[j],
                        before.children@[j],
                        with_height(d1, stacked_height(h0, self.children@, j)),
                    ),
                self.dimensions == with_height(d1, stacked_height(h0, self.children@, i as int)),
            decreases self.children@.len() - i,
        {
            let ghost kids = self.children@;
            let cb = self.dimensions;
            proof {
                assert(decreases_to!(before.children => before.children@));
                assert(decreases_to!(before.children@ => before.children@[i as int]));
                assert(decreases_to!(before.children@[i as int] => before.children@[i as int].children));
            }
            self.children[i].layout(cb);
            let h = self.children[i].dimensions.margin_box().height;
            self.dimensions.content.height = clamp_i64(self.dimensions.content.height as i128 + h as i128);
            proof {
                assert forall|j: int| 0 <= j <= i implies stacked_height(h0, self.children@, j)
                    == stacked_height(h0, kids, j) by {
                    lemma_stacked_prefix(h0, self.children@, kids, j);
                }
                assert(stacked_height(h0, self.children@, i + 1) == clamp(
                    stacked_height(h0, self.children@, i as int) + margin_box_of(
                        self.children@[i as int].dimensions,
                    ).height,
                ));
                assert forall|j: int|
                    0 <= j < i + 1 implies laid_out(
                    #[trigger] self.children@[j],
                    before.children@[j],
                    with_height(d1, stacked_height(h0, self.children@, j)),
                ) by {
                    if j < i {
                        assert(self.children@[j] == kids[j]);
                    }
                }
            }
            i = i + 1;
        }
    }
}

/// Why a styled tree cannot be laid out.
#[derive(Debug, Clone, Copy, PartialEq, Eq, Structural)]
pub enum LayoutError {
    /// The root node has `display: none`, so there is no box tree.
    RootDisplayNone,
}

/// Builds the box tree of `node` and lays it out in `containing_block`,
/// starting at its top: its content height is taken as 0.
pub fn layout_tree<'a>(node: &'a StyledNode<'a>, containing_block: Dimensions) -> (r: Result<
    LayoutBox<'a>,
    LayoutError,
>)
    ensures
        r is Err <==> display_of(node.specified_values@) == Display::Hidden,
        r is Err ==> r->Err_0 == LayoutError::RootDisplayNone,
        r is Ok ==> exists|t: LayoutBox<'a>|
            built_as(t, model_of(*node)) && laid_out(r->Ok_0, t, with_height(containing_block, 0)),
{
    if node.display() == Display::Hidden {
        return Err(LayoutError::RootDisplayNone);
    }
    let mut cb = containing_block;
    cb.content.height = 0;
    let mut root = build_layout_tree(node);
    let ghost built = root;
    root.layout(cb);
    assert(cb == with_height(containing_block, 0));
    assert(built_as(built, model_of(*node)) && laid_out(root, built, cb));
    Ok(root)
}

/// Solving the widths of a box twice against the same containing block
/// gives the same dimensions as solving them once.
pub proof fn lemma_width_idempotent(m: Map<Seq<char>, Value>, cb: Dimensions, d: Dimensions)
    ensures
        width_solved(m, cb, width_solved(m, cb, d)) == width_solved(m, cb, d),
{
    reveal(width_solved);
}

/// The sum of the margin-box heights of the first `k` boxes of `kids`.
pub open spec fn margin_heights(kids: Seq<LayoutBox>, k: int) -> int
    decreases k,
{
    if k <= 0 {
        0
    } else {
        margin_heights(kids, k - 1) + margin_box_of(kids[k - 1].dimensions).height
    }
}

proof fn lemma_stacked_exact(kids: Seq<LayoutBox>, k: int)
    requires
        0 <= k <= kids.len(),
        forall|j: int| 0 <= j <= k ==> i64::MIN <= #[trigger] margin_heights(kids, j) <= i64::MAX,
    ensures
        stacked_height(0, kids, k) == margin_heights(kids, k),
    decreases k,
{
    if k > 0 {
        assert(i64::MIN <= margin_heights(kids, k) <= i64::MAX);
        lemma_stacked_exact(kids, k - 1);
    }
}

/// Height roll-up: a box laid out from content height 0 with no explicit
/// `px` height ends with the sum of its children's margin-box heights as
/// content height (when no partial sum leaves the range of `i64`).
pub proof fn lemma_height_rollup(after: LayoutBox, before: LayoutBox, cb: Dimensions)
    requires
        laid_out(after, before, cb),
        before.dimensions.content.height == 0,
        !(value_of(box_values(before.box_type), "height"@) matches Some(Value::Length(_, Unit::Px))),
        forall|j: int|
            0 <= j <= after.children@.len() ==> i64::MIN <= #[trigger] margin_heights(
                after.children@,
                j,
            ) <= i64::MAX,
    ensures
        after.dimensions.content.height == margin_heights(after.children@, after.children@.len() as int),
{
    reveal(width_solved);
    reveal(position_solved);
    lemma_stacked_exact(after.children@, after.children@.len() as int);
}

} // verus!
