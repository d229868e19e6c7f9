//! Turns a laid-out box tree into a list of solid rectangles and paints
//! them onto a canvas, later ones over earlier ones.

use vstd::prelude::*;

use crate::css::{ColorRGBA, Value};
use crate::layout::{expand, BoxType, LayoutBox, Rect};
use crate::props::value_of;

verus! {

pub enum DisplayCommand {
    SolidColor(ColorRGBA, Rect),
}

pub open spec fn clamp(x: int) -> int {
    if x < i64::MIN {
        i64::MIN as int
    } else if x > i64::MAX {
        i64::MAX as int
    } else {
        x
    }
}

fn clamp_i64(x: i128) -> (r: i64)
    ensures
        r == clamp(x as int),
{
    if x < i64::MIN as i128 {
        i64::MIN
    } else if x > i64::MAX as i128 {
        i64::MAX
    } else {
        x as i64
    }
}

/// The color value of property `name` of a box's styled node.
pub open spec fn color_of(b: LayoutBox, name: Seq<char>) -> Option<ColorRGBA> {
    match b.box_type {
        BoxType::BlockNode(s) => match value_of(s.specified_values@, name) {
            Some(Value::Color(c)) => Some(c),
            _ => None,
        },
        BoxType::InlineNode(s) => match value_of(s.specified_values@, name) {
            Some(Value::Color(c)) => Some(c),
            _ => None,
        },
        BoxType::AnonymousBlock => None,
    }
}

pub open spec fn border_box_of(b: LayoutBox) -> Rect {
    expand(expand(b.dimensions.content, b.dimensions.padding), b.dimensions.border)
}

/// The background: the border box in the `background` color.
pub open spec fn background_commands(b: LayoutBox) -> Seq<DisplayCommand> {
    match color_of(b, "background"@) {
        Some(c) => seq![DisplayCommand::SolidColor(c, border_box_of(b))],
        None => Seq::empty(),
    }
}

/// The four borders, left, right, top and bottom, in the `border-color`.
pub open spec fn border_commands(b: LayoutBox) -> Seq<DisplayCommand> {
    let d = b.dimensions;
    let bb = border_box_of(b);
    match color_of(b, "border-color"@) {
        Some(c) => seq![
            DisplayCommand::SolidColor(c, Rect { x: bb.x, y: bb.y, width: d.border.left, height: bb.height }),
            DisplayCommand::SolidColor(
                c,
                Rect {
                    x: clamp(bb.x + bb.width - d.border.right) as i64,
                    y: bb.y,
                    width: d.border.right,
                    height: bb.height,
                },
            ),
            DisplayCommand::SolidColor(c, Rect { x: bb.x, y: bb.y, width: bb.width, height: d.border.top }),
            DisplayCommand::SolidColor(
                c,
                Rect {
                    x: bb.x,
                    y: clamp(bb.y + bb.height - d.border.bottom) as i64,
                    width: bb.width,
                    height: d.border.bottom,
                },
            ),
        ],
        None => Seq::empty(),
    }
}

/// A box's own commands, then those of its children in order.
pub open spec fn display_list_of(b: LayoutBox) -> Seq<DisplayCommand>
    decreases b, 1int,
{
    background_commands(b) + border_commands(b) + children_commands(b, b.children@.len() as int)
}

pub open spec fn children_commands(b: LayoutBox, k: int) -> Seq<DisplayCommand>
    decreases b, 0int, k,
{
    if k <= 0 || k > b.children@.len() {
        Seq::empty()
    } else {
        children_commands(b, k - 1) + display_list_of(b.children@[k - 1])
    }
}

pub fn build_display_list(layout_root: &LayoutBox) -> (r: Vec<DisplayCommand>)
    ensures
        r@ == display_list_of(*layout_root),
{
    let mut list: Vec<DisplayCommand> = Vec::new();
    render_layout_box(&mut list, layout_root);
    assert(list@ =~= display_list_of(*layout_root));
    list
}

fn render_layout_box(list: &mut Vec<DisplayCommand>, layout_box: &LayoutBox)
    ensures
        final(list)@ == old(list)@ + display_list_of(*layout_box),
    decreases *layout_box,
{
    render_background(list, layout_box);
    render_borders(list, layout_box);
    let ghost own = list@;
    let mut i: usize = 0;
    assert(own =~= own + children_commands(*layout_box, 0));
    while i < layout_box.children.len()
        invariant
            i <= layout_box.children@.len(),
            list@ == own + children_commands(*layout_box, i as int),
        decreases layout_box.children@.len() - i,
    {
        render_layout_box(list, &layout_box.children[i]);
        assert(list@ =~= own + children_commands(*layout_box, i + 1));
        i = i + 1;
    }
    assert(list@ =~= old(list)@ + display_list_of(*layout_box));
}

fn render_background(list: &mut Vec<DisplayCommand>, layout_box: &LayoutBox)
    ensures
        final(list)@ == old(list)@ + background_commands(*layout_box),
{
    if let Some(c) = get_color(layout_box, "background") {
        list.push(DisplayCommand::SolidColor(c, layout_box.dimensions.border_box()));
        assert(list@ =~= old(list)@ + background_commands(*layout_box));
    } else {
        assert(list@ =~= old(list)@ + background_commands(*layout_box));
    }
}

/// The color that property `name` of the box's styled node holds, if any.
fn get_color(layout_box: &LayoutBox, name: &str) -> (r: Option<ColorRGBA>)
    ensures
        r == color_of(*layout_box, name@),
{
    match layout_box.box_type {
        BoxType::BlockNode(style) => match style.value(name) {
            Some(Value::Color(c)) => Some(c),
            _ => None,
        },
        BoxType::InlineNode(style) => match style.value(name) {
            Some(Value::Color(c)) => Some(c),
            _ => None,
        },
        BoxType::AnonymousBlock => None,
    }
}

fn render_borders(list: &mut Vec<DisplayCommand>, layout_box: &LayoutBox)
    ensures
        final(list)@ == old(list)@ + border_commands(*layout_box),
{
    let color = match get_color(layout_box, "border-color") {
        Some(c) => c,
        None => {
            assert(list@ =~= old(list)@ + border_commands(*layout_box));
            return;
        },
    };
    let d = &layout_box.dimensions;
    let border_box = d.border_box();
    list.push(
        DisplayCommand::SolidColor(
            color,
            Rect { x: border_box.x, y: border_box.y, width: d.border.left, height: border_box.height },
        ),
    );
    list.push(
        DisplayCommand::SolidColor(
            color,
            Rect {
                x: clamp_i64(border_box.x as i128 + border_box.width as i128 - d.border.right as i128),
                y: border_box.y,
                width: d.border.right,
                height: border_box.height,
            },
        ),
    );
    list.push(
        DisplayCommand::SolidColor(
            color,
            Rect { x: border_box.x, y: border_box.y, width: border_box.width, height: d.border.top },
        ),
    );
    list.push(
        DisplayCommand::SolidColor(
            color,
            Rect {
                x: border_box.x,
                y: clamp_i64(border_box.y as i128 + border_box.height as i128 - d.border.bottom as i128),
                width: border_box.width,
                height: d.border.bottom,
            },
        ),
    );
    assert(list@ =~= old(list)@ + border_commands(*layout_box));
}

pub open spec fn white() -> ColorRGBA {
    ColorRGBA { r: 255, g: 255, b: 255, a: 255 }
}

/// `v` held to `0..=n`.
pub open spec fn clip(v: int, n: int) -> int {
    if v < 0 {
        0
    } else if v > n {
        n
    } else {
        v
    }
}

/// Pixel `(x, y)` of a `w` by `h` canvas lies in `r` clipped to the canvas.
pub open spec fn covers(r: Rect, w: int, h: int, x: int, y: int) -> bool {
    clip(r.x as int, w) <= x < clip(r.x + r.width, w) && clip(r.y as int, h) <= y < clip(
        r.y + r.height,
        h,
    )
}

/// The color of pixel `(x, y)` after painting `cmds` on a white canvas: that
/// of the last command that covers it.
pub open spec fn pixel_after(cmds: Seq<DisplayCommand>, w: int, h: int, x: int, y: int) -> ColorRGBA
    decreases cmds.len(),
{
    if cmds.len() == 0 {
        white()
    } else {
        match cmds.last() {
            DisplayCommand::SolidColor(c, r) => if covers(r, w, h, x, y) {
                c
            } else {
                pixel_after(cmds.drop_last(), w, h, x, y)
            },
        }
    }
}

proof fn lemma_index(w: int, h: int, x: int, y: int)
    requires
        0 <= x < w,
        0 <= y < h,
    ensures
        0 <= y * w + x < w * h,
{
    assert(y * w + x < w * h) by (nonlinear_arith)
        requires
            0 <= x < w,
            0 <= y < h,
    ;
    assert(0 <= y * w) by (nonlinear_arith)
        requires
            0 <= y,
            0 <= w,
    ;
}

proof fn lemma_index_unique(w: int, x: int, y: int, px: int, py: int)
    requires
        0 <= x < w,
        0 <= px < w,
        0 <= y,
        0 <= py,
        y * w + x == py * w + px,
    ensures
        x == px && y == py,
{
    assert(x == px && y == py) by (nonlinear_arith)
        requires
            0 <= x < w,
            0 <= px < w,
            0 <= y,
            0 <= py,
            y * w + x == py * w + px,
    ;
}

/// A grid of pixels, row by row.
pub struct Canvas {
    pub pixels: Vec<ColorRGBA>,
    pub width: usize,
    pub height: usize,
}

impl Canvas {
    pub open spec fn pixel(&self, x: int, y: int) -> ColorRGBA {
        self.pixels@[y * self.width + x]
    }

    /// A white canvas.
    pub fn new(width: usize, height: usize) -> (r: Canvas)
        requires
            width * height <= usize::MAX,
        ensures
            r.width == width,
            r.height == height,
            r.pixels@.len() == width * height,
            forall|i: int| 0 <= i < r.pixels@.len() ==> r.pixels@[i] == white(),
    {
        let white = ColorRGBA { r: 255, g: 255, b: 255, a: 255 };
        Canvas { pixels: vec![white; width * height], width, height }
    }

    #[verifier::rlimit(40)]
    fn paint_item(&mut self, item: &DisplayCommand)
        requires
            old(self).pixels@.len() == old(self).width * old(self).height,
        ensures
            final(self).width == old(self).width,
            final(self).height == old(self).height,
            final(self).pixels@.len() == old(self).pixels@.len(),
            forall|x: int, y: int|
                0 <= x < old(self).width && 0 <= y < old(self).height ==> #[trigger] final(self).pixel(x, y) == match *item {
                    DisplayCommand::SolidColor(c, r) => if covers(
                        r,
                        old(self).width as int,
                        old(self).height as int,
                        x,
                        y,
                    ) {
                        c
                    } else {
                        old(self).pixel(x, y)
                    },
                },
    {
        let ghost w = self.width as int;
        let ghost h = self.height as int;
        assert(self.pixels.len() <= usize::MAX);
        match *item {
            DisplayCommand::SolidColor(color, rect) => {
                let x0 = clip_to(rect.x as i128, self.width);
                let y0 = clip_to(rect.y as i128, self.height);
                let x1 = clip_to(rect.x as i128 + rect.width as i128, self.width);
                let y1 = clip_to(rect.y as i128 + rect.height as i128, self.height);
                let mut y: usize = y0;
                while y < y1
                    invariant
                        self.width == w,
                        self.height == h,
                        self.pixels@.len() == w * h,
                        y0 <= y,
                        y <= y1 || y == y0,
                        w * h <= usize::MAX,
                        y1 <= h,
                        x1 <= w,
                        forall|px: int, py: int|
                            0 <= px < w && 0 <= py < h ==> #[trigger] self.pixel(px, py) == if y0
                                <= py < y && x0 <= px < x1 {
                                color
                            } else {
                                old(self).pixel(px, py)
                            },
                    decreases y1 - y,
                {
                    let mut x: usize = x0;
                    while x < x1
                        invariant
                            self.width == w,
                            self.height == h,
                            self.pixels@.len() == w * h,
                            y0 <= y < y1,
                            y1 <= h,
                            x0 <= x,
                            x <= x1 || x == x0,
                            w * h <= usize::MAX,
                            x1 <= w,
                            forall|px: int, py: int|
                                0 <= px < w && 0 <= py < h ==> #[trigger] self.pixel(px, py) == if (
                                y0 <= py < y && x0 <= px < x1) || (py == y && x0 <= px < x) {
                                    color
                                } else {
                                    old(self).pixel(px, py)
                                },
                        decreases x1 - x,
                    {
                        proof {
                            lemma_index(w, h, x as int, y as int);
                        }
                        let i = y * self.width + x;
                        let ghost before = *self;
                        self.pixels.set(i, color);
                        proof {
                            assert forall|px: int, py: int|
                                0 <= px < w && 0 <= py < h implies #[trigger] self.pixel(px, py)
                                == if (y0 <= py < y && x0 <= px < x1) || (py == y && x0 <= px < x
                                + 1) {
                                color
                            } else {
                                old(self).pixel(px, py)
                            } by {
                                lemma_index(w, h, px, py);
                                assert(before.pixel(px, py) == if (y0 <= py < y && x0 <= px < x1)
                                    || (py == y && x0 <= px < x) {
                                    color
                                } else {
                                    old(self).pixel(px, py)
                                });
                                if py * w + px == i {
                                    lemma_index_unique(w, x as int, y as int, px, py);
                                }
                            }
                        }
                        x = x + 1;
                    }
                    y = y + 1;
                }
            },
        }
    }
}

/// `v` held to `0..=n`.
fn clip_to(v: i128, n: usize) -> (r: usize)
    ensures
        r == clip(v as int, n as int),
{
    if v < 0 {
        0
    } else if v > n as i128 {
        n
    } else {
        v as usize
    }
}

pub open spec fn canvas_size(v: i64) -> int {
    if v < 0 {
        0
    } else {
        v as int
    }
}

/// Paints the boxes of `layout_root` onto a white canvas the size of
/// `bounds` (a negative size counts as 0).
#[verifier::rlimit(40)]
pub fn paint(layout_root: &LayoutBox, bounds: Rect) -> (r: Canvas)
    requires
        canvas_size(bounds.width) <= usize::MAX,
        canvas_size(bounds.height) <= usize::MAX,
        canvas_size(bounds.width) * canvas_size(bounds.height) <= usize::MAX,
    ensures
        r.width == canvas_size(bounds.width),
        r.height == canvas_size(bounds.height),
        r.pixels@.len() == r.width * r.height,
        forall|x: int, y: int|
            0 <= x < r.width && 0 <= y < r.height ==> #[trigger] r.pixel(x, y) == pixel_after(
                display_list_of(*layout_root),
                r.width as int,
                r.height as int,
                x,
                y,
            ),
{
    let display_list = build_display_list(layout_root);
    let width: usize = if bounds.width < 0 { 0 } else { bounds.width as usize };
    let height: usize = if bounds.height < 0 { 0 } else { bounds.height as usize };
    let mut canvas = Canvas::new(width, height);
    let ghost w = width as int;
    let ghost h = height as int;
    assert forall|x: int, y: int| 0 <= x < w && 0 <= y < h implies #[trigger] canvas.pixel(x, y)
        == white() by {
        lemma_index(w, h, x, y);
    }
    let mut k: usize = 0;
    while k < display_list.len()
        invariant
            canvas.width == w,
            canvas.height == h,
            canvas.pixels@.len() == w * h,
            k <= display_list@.len(),
            forall|x: int, y: int|
                0 <= x < w && 0 <= y < h ==> #[trigger] canvas.pixel(x, y) == pixel_after(
                    display_list@.take(k as int),
                    w,
                    h,
                    x,
                    y,
                ),
        decreases display_list@.len() - k,
    {
        canvas.paint_item(&display_list[k]);
        assert(display_list@.take(k + 1).drop_last() == display_list@.take(k as int));
        k = k + 1;
    }
    assert(display_list@.take(k as int) == display_list@);
    canvas
}

} // verus!
